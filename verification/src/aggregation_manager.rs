//! How long each application and window was in use, kept up to date record by record.

use crate::aggregate::{
    absorb_slice, all_last, app_fits, app_key, app_of, app_seen, apps_of, has_window, slice_end,
    slice_secs, slice_start, totals_fit, window_key, window_of, window_slices, AggregatedActivity,
    AppView, Slice, SliceView, WindowView,
};
use crate::grouping::{
    by_recency, earliest, kept, keys_of, latest, lemma_by_recency_views, lemma_distinct,
    lemma_members, members, seen_by, sort_by_recency, sum_of,
};
use crate::records::{ActivityRecord, RecordView};
use crate::time::Timestamp;
use crate::use_totals::{
    has_key, lemma_earliest, lemma_kept_twice, lemma_latest, lemma_members_are_kept,
    lemma_same_items,
};
use crate::views::views;
use crate::window_places::has_window_id;
use vstd::prelude::*;

verus! {

/// The seconds that a record lasted, modulo 2^64: none while it has no end.
pub open spec fn record_secs(r: RecordView) -> int {
    match r.end_time {
        Some(end) => end.secs_since(r.start_time) % 0x1_0000_0000_0000_0000,
        None => 0,
    }
}

/// What a record adds to the use of an application: nothing where there was no focus.
pub open spec fn use_of(r: RecordView) -> Option<SliceView> {
    match r.focus_info {
        Some(focus) => Some(
            SliceView { focus, start: r.start_time, end: r.start_time, secs: record_secs(r) },
        ),
        None => None,
    }
}

/// What was used, with one more record.
pub open spec fn used_with(uses: Seq<SliceView>, r: RecordView) -> Seq<SliceView> {
    match use_of(r) {
        Some(u) => uses.push(u),
        None => uses,
    }
}

/// The use of applications, as all records up to now show it.
pub struct AggregationManager {
    aggregated_activities: Vec<AggregatedActivity>,
    uses: Ghost<Seq<SliceView>>,
}

/// What was used, record by record.
impl View for AggregationManager {
    type V = Seq<SliceView>;

    closed spec fn view(&self) -> Seq<SliceView> {
        self.uses@
    }
}

fn secs_of(record: &ActivityRecord) -> (r: u64)
    ensures
        r == record_secs(record@),
{
    match record.end_time {
        Some(end) => {
            let secs: i64 = end.num_seconds_since(&record.start_time);
            if secs < 0 {
                let back: u64 = (-(secs + 1)) as u64;
                assert((secs as int) % 0x1_0000_0000_0000_0000 == 0x1_0000_0000_0000_0000 + secs)
                    by (nonlinear_arith)
                    requires
                        -0x1_0000_0000_0000_0000 < secs < 0,
                ;
                u64::MAX - back
            } else {
                secs as u64
            }
        },
        None => 0,
    }
}

proof fn lemma_fits_after(uses: Seq<SliceView>, u: SliceView)
    requires
        totals_fit(uses),
    ensures
        totals_fit(uses.push(u)) == app_fits(members(uses, app_key(), app_key()(u)).push(u)),
{
    let more = uses.push(u);
    assert(more.drop_last() =~= uses);
    assert(members(more, app_key(), app_key()(u)) == members(uses, app_key(), app_key()(u)).push(
        u,
    ));
    if app_fits(members(uses, app_key(), app_key()(u)).push(u)) {
        assert forall|k: (i32, u64)| app_fits(#[trigger] members(more, app_key(), k)) by {
            assert(app_fits(members(uses, app_key(), k)));
        }
    } else {
        assert(!app_fits(members(more, app_key(), app_key()(u))));
    }
}

/// One more use fits the counters of a process where the seconds fit and, if it is of a listed
/// window, the count of that window.
proof fn lemma_app_fits_after(ms: Seq<SliceView>, u: SliceView)
    requires
        app_fits(ms),
    ensures
        app_fits(ms.push(u)) == (app_of(ms).total_duration_seconds + u.secs <= u64::MAX && (
        has_window()(u) ==> window_slices(ms, window_key()(u)).len() < u32::MAX)),
{
    let more = ms.push(u);
    let id = window_key()(u);
    assert(more.drop_last() =~= ms);
    if has_window()(u) {
        let ts = kept(ms, has_window());
        assert(ts.push(u).drop_last() =~= ts);
        assert(window_slices(more, id) == window_slices(ms, id).push(u));
        assert forall|other: u32| other != id implies (#[trigger] window_slices(more, other))
            == window_slices(ms, other) by {}
    }
    if app_fits(more) {
        assert(window_slices(more, id).len() <= u32::MAX);
    } else if sum_fits(more) {
        let other = choose|other: u32| (#[trigger] window_slices(more, other)).len() > u32::MAX;
        assert(window_slices(ms, other).len() <= u32::MAX);
    }
}

spec fn sum_fits(ss: Seq<SliceView>) -> bool {
    sum_of(ss, slice_secs()) <= u64::MAX
}

impl AggregationManager {
    /// The totals are those of the uses, and fit the counters.
    pub closed spec fn wf(&self) -> bool {
        &&& views(self.aggregated_activities@) == apps_of(self.uses@)
        &&& all_last(self.uses@)
        &&& totals_fit(self.uses@)
    }

    pub fn new() -> (r: Self)
        ensures
            r.wf(),
            r@ == Seq::<SliceView>::empty(),
    {
        let aggregated_activities: Vec<AggregatedActivity> = Vec::new();
        proof {
            lemma_nothing_used();
            assert(views(aggregated_activities@) =~= apps_of(Seq::empty()));
        }
        AggregationManager { aggregated_activities, uses: Ghost(Seq::empty()) }
    }

    /// Whether the counters can take one more record.
    pub fn has_room_for(&self, record: &ActivityRecord) -> (r: bool)
        requires
            self.wf(),
        ensures
            r == totals_fit(used_with(self@, record@)),
    {
        match &record.focus_info {
            None => true,
            Some(focus) => {
                let secs: u64 = secs_of(record);
                let ghost u = use_of(record@)->0;
                let ghost k = app_key()(u);
                let ghost ss = self.uses@;
                let ghost ks = keys_of(ss, app_key());
                let ghost apps = views(self.aggregated_activities@);
                let ghost ms = members(ss, app_key(), k);
                proof {
                    lemma_fits_after(ss, u);
                    lemma_members(ss, app_key(), k);
                    assert(app_fits(ms));
                    lemma_app_fits_after(ms, u);
                    lemma_distinct(ss.map_values(app_key()));
                    assert forall|j: int| 0 <= j < apps.len() implies ((#[trigger] apps[j]).pid,
                        apps[j].process_start_time) == ks[j] by {
                        lemma_members(ss, app_key(), ks[j]);
                        assert(ks.contains(ks[j]));
                    }
                }
                let mut i: usize = 0;
                while i < self.aggregated_activities.len()
                    invariant
                        apps == views(self.aggregated_activities@),
                        apps == apps_of(ss),
                        ks == keys_of(ss, app_key()),
                        k == (focus.pid, focus.process_start_time),
                        k == app_key()(u),
                        u.focus == focus@,
                        u.secs == secs,
                        self.wf(),
                        self@ == ss,
                        use_of(record@) == Some(u),
                        ms == members(ss, app_key(), k),
                        totals_fit(ss.push(u)) == app_fits(ms.push(u)),
                        app_fits(ms.push(u)) == (app_of(ms).total_duration_seconds + u.secs
                            <= u64::MAX && (has_window()(u) ==> window_slices(
                            ms,
                            window_key()(u),
                        ).len() < u32::MAX)),
                        i <= self.aggregated_activities.len(),
                        ks.len() == apps.len(),
                        forall|j: int|
                            0 <= j < apps.len() ==> ((#[trigger] apps[j]).pid,
                                apps[j].process_start_time) == ks[j],
                        forall|j: int| 0 <= j < i ==> ks[j] != k,
                    decreases self.aggregated_activities.len() - i,
                {
                    let app = &self.aggregated_activities[i];
                    assert(apps[i as int] == app@);
                    assert((apps[i as int].pid, apps[i as int].process_start_time)
                        == ks[i as int]);
                    if app.pid == focus.pid && app.process_start_time == focus.process_start_time {
                        assert(apps[i as int] == app_of(ms));
                        if app.total_duration_seconds > u64::MAX - secs {
                            return false;
                        }
                        if focus.window_title.as_str().is_empty() || focus.window_id == 0 {
                            assert(!has_window()(u));
                            return true;
                        }
                        return window_has_room(app, focus.window_id, Ghost(ms));
                    }
                    i += 1;
                }
                proof {
                    assert(!ks.contains(k));
                    assert(ms =~= Seq::<SliceView>::empty());
                    assert(kept(ms, has_window()) =~= Seq::empty());
                    assert(app_of(ms).total_duration_seconds == 0);
                }
                true
            },
        }
    }

    /// Adds a record to the use of its application and its window.
    pub fn update_with_record(&mut self, record: &ActivityRecord)
        requires
            old(self).wf(),
            totals_fit(used_with(old(self)@, record@)),
        ensures
            final(self).wf(),
            final(self)@ == used_with(old(self)@, record@),
    {
        match &record.focus_info {
            None => {},
            Some(focus) => {
                let secs: u64 = secs_of(record);
                let s = Slice { focus, start: record.start_time, end: record.start_time, secs };
                let ghost before = self.uses@;
                absorb_slice(&mut self.aggregated_activities, &s, Ghost(before));
                self.uses = Ghost(before.push(s@));
            },
        }
    }

    /// The use of each application, from the one used last to the one used first.
    pub fn get_aggregated_activities(&self) -> (r: Vec<AggregatedActivity>)
        requires
            self.wf(),
        ensures
            views(r@) == by_recency(apps_of(self@), app_seen()),
    {
        let apps = self.aggregated_activities.clone();
        proof {
            assert(views(apps@) =~= views(self.aggregated_activities@));
            lemma_by_recency_views(apps@, seen_by::<AggregatedActivity>(), app_seen());
        }
        sort_by_recency(apps)
    }

    /// Forgets all use.
    pub fn clear(&mut self)
        requires
            old(self).wf(),
        ensures
            final(self).wf(),
            final(self)@ == Seq::<SliceView>::empty(),
    {
        self.aggregated_activities.clear();
        self.uses = Ghost(Seq::empty());
        proof {
            lemma_nothing_used();
            assert(views(self.aggregated_activities@) =~= apps_of(Seq::empty()));
        }
    }

    /// How many applications were used.
    pub fn len(&self) -> (r: usize)
        requires
            self.wf(),
        ensures
            r == apps_of(self@).len(),
            r == keys_of(self@, app_key()).len(),
    {
        assert(views(self.aggregated_activities@).len() == apps_of(self.uses@).len());
        self.aggregated_activities.len()
    }

    pub fn is_empty(&self) -> (r: bool)
        requires
            self.wf(),
        ensures
            r == (self@.len() == 0),
    {
        proof {
            assert(views(self.aggregated_activities@).len() == apps_of(self.uses@).len());
            if self.uses@.len() > 0 {
                let k = app_key()(self.uses@[0]);
                lemma_distinct(self.uses@.map_values(app_key()));
                assert(self.uses@.map_values(app_key())[0] == k);
                assert(self.uses@.map_values(app_key()).contains(k));
                assert(keys_of(self.uses@, app_key()).contains(k));
            }
        }
        self.aggregated_activities.len() == 0
    }
}

proof fn lemma_nothing_used()
    ensures
        apps_of(Seq::empty()) == Seq::<AppView>::empty(),
        totals_fit(Seq::empty()),
{
    let none = Seq::<SliceView>::empty();
    assert(apps_of(none) =~= Seq::<AppView>::empty());
    assert forall|k: (i32, u64)| app_fits(#[trigger] members(none, app_key(), k)) by {
        assert(members(none, app_key(), k) =~= none);
        assert(kept(none, has_window()) =~= none);
        assert forall|id: u32| (#[trigger] window_slices(none, id)).len() <= u32::MAX by {
            assert(members(none, window_key(), id) =~= none);
        }
    }
}

/// Whether the window of the process with the given identifier can count one more record.
fn window_has_room(app: &AggregatedActivity, id: u32, Ghost(ms): Ghost<Seq<SliceView>>) -> (r: bool)
    requires
        app@ == app_of(ms),
    ensures
        r == (window_slices(ms, id).len() < u32::MAX),
{
    let ghost ts = kept(ms, has_window());
    let ghost ids = keys_of(ts, window_key());
    let ghost ws = views(app.windows@);
    proof {
        lemma_distinct(ts.map_values(window_key()));
        lemma_members(ts, window_key(), id);
        assert forall|j: int| 0 <= j < ws.len() implies (#[trigger] ws[j]) == window_of(
            members(ts, window_key(), ids[j]),
        ) && ws[j].window_id == ids[j] by {
            lemma_members(ts, window_key(), ids[j]);
            assert(ids.contains(ids[j]));
        }
    }
    let mut i: usize = 0;
    while i < app.windows.len()
        invariant
            ws == views(app.windows@),
            ws.len() == ids.len(),
            forall|j: int|
                0 <= j < ws.len() ==> (#[trigger] ws[j]) == window_of(
                    members(ts, window_key(), ids[j]),
                ) && ws[j].window_id == ids[j],
            window_slices(ms, id) == members(ts, window_key(), id),
            i <= app.windows.len(),
            forall|j: int| 0 <= j < i ==> ids[j] != id,
        decreases app.windows.len() - i,
    {
        assert(ws[i as int] == app.windows@[i as int]@);
        if app.windows[i].window_id == id {
            return app.windows[i].record_count < u32::MAX;
        }
        i += 1;
    }
    assert(!ids.contains(id));
    true
}

/// The manager lists every process once, from the one used last to the one used first.
pub proof fn law_manager_lists_by_recency(m: &AggregationManager, i: int, j: int)
    requires
        m.wf(),
        0 <= i < j < by_recency(apps_of(m@), app_seen()).len(),
    ensures
        by_recency(apps_of(m@), app_seen()).len() == keys_of(m@, app_key()).len(),
        by_recency(apps_of(m@), app_seen()).to_multiset() == apps_of(m@).to_multiset(),
        !by_recency(apps_of(m@), app_seen())[i].last_seen.before(
            by_recency(apps_of(m@), app_seen())[j].last_seen,
        ),
{
    crate::grouping::law_by_recency_sorts(apps_of(m@), app_seen());
    let listed = by_recency(apps_of(m@), app_seen());
    assert(!app_seen()(listed[i]).before(app_seen()(listed[j])));
}

/// What was used after several records.
pub open spec fn used_after(uses: Seq<SliceView>, rs: Seq<RecordView>) -> Seq<SliceView>
    decreases rs.len(),
{
    if rs.len() == 0 {
        uses
    } else {
        used_with(used_after(uses, rs.drop_last()), rs.last())
    }
}

/// The record has a focus on the process.
pub open spec fn on_process(pid: i32, start: u64) -> spec_fn(RecordView) -> bool {
    |r: RecordView|
        r.focus_info is Some && r.focus_info->0.pid == pid && r.focus_info->0.process_start_time
            == start
}

/// The record has a focus on the window, which has a title and a number.
pub open spec fn on_window(pid: i32, start: u64, id: u32) -> spec_fn(RecordView) -> bool {
    |r: RecordView|
        r.focus_info is Some && r.focus_info->0.pid == pid && r.focus_info->0.process_start_time
            == start && r.focus_info->0.window_id == id && id > 0
            && r.focus_info->0.window_title.len() > 0
}

/// The whole seconds from the start of a record to its end; none while it has not ended. One that
/// ends before it starts counts as a number of 64 bits does that goes below zero.
pub open spec fn lasted(r: RecordView) -> int {
    if r.end_time is None {
        0
    } else if r.end_time->0.secs_since(r.start_time) >= 0 {
        r.end_time->0.secs_since(r.start_time)
    } else {
        0x1_0000_0000_0000_0000 + r.end_time->0.secs_since(r.start_time)
    }
}

/// The seconds that the records lasted together.
pub open spec fn all_lasted(rs: Seq<RecordView>) -> int
    decreases rs.len(),
{
    if rs.len() == 0 {
        0
    } else {
        all_lasted(rs.drop_last()) + lasted(rs.last())
    }
}

/// No record starts before `first` or after `last`, and some start there.
pub open spec fn start_between(rs: Seq<RecordView>, first: Timestamp, last: Timestamp) -> bool {
    &&& forall|i: int|
        0 <= i < rs.len() ==> !(#[trigger] rs[i]).start_time.before(first) && !last.before(
            rs[i].start_time,
        )
    &&& exists|i: int| 0 <= i < rs.len() && (#[trigger] rs[i]).start_time == first
    &&& exists|i: int| 0 <= i < rs.len() && (#[trigger] rs[i]).start_time == last
}

/// No record is so short or long that its seconds leave 64 bits.
pub open spec fn lengths_fit(rs: Seq<RecordView>) -> bool {
    forall|i: int|
        0 <= i < rs.len() && (#[trigger] rs[i]).end_time is Some ==> -0x1_0000_0000_0000_0000
            < rs[i].end_time->0.secs_since(rs[i].start_time) < 0x1_0000_0000_0000_0000
}

spec fn shown(r: RecordView) -> SliceView {
    SliceView { focus: r.focus_info->0, start: r.start_time, end: r.start_time, secs: lasted(r) }
}

proof fn lemma_lasted(r: RecordView)
    requires
        r.end_time is Some ==> -0x1_0000_0000_0000_0000 < r.end_time->0.secs_since(r.start_time)
            < 0x1_0000_0000_0000_0000,
    ensures
        record_secs(r) == lasted(r),
{
    if r.end_time is Some {
        let secs = r.end_time->0.secs_since(r.start_time);
        if secs < 0 {
            assert(secs % 0x1_0000_0000_0000_0000 == 0x1_0000_0000_0000_0000 + secs)
                by (nonlinear_arith)
                requires
                    -0x1_0000_0000_0000_0000 < secs < 0,
            ;
        } else {
            assert(secs % 0x1_0000_0000_0000_0000 == secs) by (nonlinear_arith)
                requires
                    0 <= secs < 0x1_0000_0000_0000_0000,
            ;
        }
    }
}

/// The uses that are kept come one by one from the records that show them.
proof fn lemma_kept_uses(
    rs: Seq<RecordView>,
    keep: spec_fn(SliceView) -> bool,
    pred: spec_fn(RecordView) -> bool,
)
    requires
        lengths_fit(rs),
        forall|r: RecordView|
            #[trigger] pred(r) <==> r.focus_info is Some && keep(shown(r)),
    ensures
        ({
            let none = Seq::<SliceView>::empty();
            let ks = kept(used_after(none, rs), keep);
            let cs = rs.filter(pred);
            &&& ks.len() == cs.len()
            &&& forall|i: int| 0 <= i < cs.len() ==> #[trigger] ks[i] == shown(cs[i])
            &&& sum_of(ks, slice_secs()) == all_lasted(cs)
        }),
    decreases rs.len(),
{
    reveal(Seq::filter);
    let none = Seq::<SliceView>::empty();
    if rs.len() > 0 {
        let b = rs.drop_last();
        let r = rs.last();
        assert(forall|i: int| 0 <= i < b.len() ==> b[i] == rs[i]);
        lemma_kept_uses(b, keep, pred);
        assert(rs[rs.len() - 1] == r);
        lemma_lasted(r);
        let ub = used_after(none, b);
        if r.focus_info is Some {
            let x = shown(r);
            assert(used_after(none, rs) == ub.push(x));
            assert(ub.push(x).drop_last() =~= ub);
            assert(kept(ub, keep).push(x).drop_last() =~= kept(ub, keep));
            assert(b.filter(pred).push(r).drop_last() =~= b.filter(pred));
            assert(pred(r) <==> keep(x));
        } else {
            assert(!pred(r));
        }
    }
}

/// Uses that come one by one from records start where those do.
proof fn lemma_starts(ss: Seq<SliceView>, rs: Seq<RecordView>)
    requires
        rs.len() > 0,
        ss.len() == rs.len(),
        forall|i: int| 0 <= i < rs.len() ==> #[trigger] ss[i] == shown(rs[i]),
    ensures
        start_between(rs, earliest(ss, slice_start()), latest(ss, slice_end())),
{
    lemma_earliest(ss, slice_start());
    lemma_latest(ss, slice_end());
    let a = choose|i: int|
        0 <= i < ss.len() && slice_start()(#[trigger] ss[i]) == earliest(ss, slice_start());
    let b = choose|i: int|
        0 <= i < ss.len() && slice_end()(#[trigger] ss[i]) == latest(ss, slice_end());
    assert(rs[a].start_time == earliest(ss, slice_start()));
    assert(rs[b].start_time == latest(ss, slice_end()));
    assert forall|i: int| 0 <= i < rs.len() implies !(#[trigger] rs[i]).start_time.before(
        earliest(ss, slice_start()),
    ) && !latest(ss, slice_end()).before(rs[i].start_time) by {
        assert(!slice_start()(ss[i]).before(earliest(ss, slice_start())));
        assert(!latest(ss, slice_end()).before(slice_end()(ss[i])));
    }
}

/// What the manager lists of a process is what the records show of it: the seconds that they lasted
/// together, whatever their states are, and the name that the first of them gives it. Each of its
/// windows likewise, with the title that the last record gives it.
pub proof fn law_manager_counts_every_record(rs: Seq<RecordView>, i: int)
    requires
        lengths_fit(rs),
        0 <= i < by_recency(apps_of(used_after(Seq::empty(), rs)), app_seen()).len(),
    ensures
        ({
            let a = by_recency(apps_of(used_after(Seq::empty(), rs)), app_seen())[i];
            let of_app = rs.filter(on_process(a.pid, a.process_start_time));
            &&& of_app.len() > 0
            &&& a.total_duration_seconds == all_lasted(of_app)
            &&& a.app_name == of_app[0].focus_info->0.app_name
            &&& start_between(of_app, a.first_seen, a.last_seen)
            &&& a.ephemeral_groups.len() == 0 && a.temporal_groups.len() == 0
            &&& forall|j: int|
                0 <= j < a.windows.len() ==> counts_window(
                    #[trigger] a.windows[j],
                    rs.filter(
                        on_window(a.pid, a.process_start_time, a.windows[j].window_id),
                    ),
                )
            &&& forall|k: int|
                0 <= k < rs.len() && on_window(
                    a.pid,
                    a.process_start_time,
                    rs[k].focus_info->0.window_id,
                )(#[trigger] rs[k]) ==> has_window_id(a.windows, rs[k].focus_info->0.window_id)
        }),
{
    let ss = used_after(Seq::empty(), rs);
    let apps = apps_of(ss);
    let listed = by_recency(apps, app_seen());
    let a = listed[i];
    crate::grouping::law_by_recency_sorts(apps, app_seen());
    lemma_same_items(listed, apps, a);
    let m = choose|m: int| 0 <= m < apps.len() && apps[m] == a;
    let ks = keys_of(ss, app_key());
    let k = ks[m];
    assert(ks.contains(k));
    lemma_members(ss, app_key(), k);
    let ms = members(ss, app_key(), k);
    assert(a == app_of(ms));
    assert(app_key()(ms[0]) == k);
    let keep = has_key(app_key(), k);
    lemma_members_are_kept(ss, app_key(), k);
    lemma_kept_uses(rs, keep, on_process(a.pid, a.process_start_time));
    let of_app = rs.filter(on_process(a.pid, a.process_start_time));
    lemma_starts(ms, of_app);
    assert(ms[0] == shown(of_app[0]));
    let ts = kept(ms, has_window());
    let ids = keys_of(ts, window_key());
    assert forall|j: int| 0 <= j < a.windows.len() implies counts_window(
        #[trigger] a.windows[j],
        rs.filter(on_window(a.pid, a.process_start_time, a.windows[j].window_id)),
    ) by {
        let id = ids[j];
        assert(ids.contains(id));
        lemma_members(ts, window_key(), id);
        let ws = members(ts, window_key(), id);
        assert(a.windows[j] == window_of(ws));
        assert(window_key()(ws[0]) == id);
        lemma_window_uses(rs, k, id);
        let of_window = rs.filter(on_window(k.0, k.1, id));
        lemma_starts(ws, of_window);
        assert(ws[ws.len() - 1] == shown(of_window[of_window.len() - 1]));
    }
    assert forall|n: int|
        0 <= n < rs.len() && on_window(
            a.pid,
            a.process_start_time,
            rs[n].focus_info->0.window_id,
        )(#[trigger] rs[n]) implies has_window_id(a.windows, rs[n].focus_info->0.window_id) by {
        let id = rs[n].focus_info->0.window_id;
        let pred = on_window(k.0, k.1, id);
        rs.lemma_filter_contains(pred, n);
        assert(rs.filter(pred).len() > 0);
        lemma_window_uses(rs, k, id);
        lemma_members(ts, window_key(), id);
        assert(ids.contains(id));
        let j = choose|j: int| 0 <= j < ids.len() && ids[j] == id;
        assert(window_key()(members(ts, window_key(), id)[0]) == id);
        assert(a.windows[j].window_id == id);
    }
}

/// The window is what the records show of it.
pub open spec fn counts_window(w: WindowView, rs: Seq<RecordView>) -> bool {
    &&& rs.len() > 0
    &&& w.duration_seconds == all_lasted(rs)
    &&& w.record_count == rs.len()
    &&& w.window_title == rs.last().focus_info->0.window_title
    &&& start_between(rs, w.first_seen, w.last_seen)
}

proof fn lemma_window_uses(rs: Seq<RecordView>, k: (i32, u64), id: u32)
    requires
        lengths_fit(rs),
    ensures
        ({
            let ss = used_after(Seq::empty(), rs);
            let ws = members(kept(members(ss, app_key(), k), has_window()), window_key(), id);
            let cs = rs.filter(on_window(k.0, k.1, id));
            &&& ws.len() == cs.len()
            &&& forall|i: int| 0 <= i < cs.len() ==> #[trigger] ws[i] == shown(cs[i])
            &&& sum_of(ws, slice_secs()) == all_lasted(cs)
        }),
{
    let ss = used_after(Seq::empty(), rs);
    let of_app = has_key(app_key(), k);
    let of_window = has_key(window_key(), id);
    let listed = |t: SliceView| of_app(t) && has_window()(t);
    let both = |t: SliceView| listed(t) && of_window(t);
    lemma_members_are_kept(ss, app_key(), k);
    lemma_kept_twice(ss, of_app, has_window(), listed);
    lemma_members_are_kept(kept(ss, listed), window_key(), id);
    lemma_kept_twice(ss, listed, of_window, both);
    lemma_kept_uses(rs, both, on_window(k.0, k.1, id));
}

/// The manager misses no process: each one that had the focus in a record is listed.
pub proof fn law_manager_misses_no_process(rs: Seq<RecordView>, j: int)
    requires
        lengths_fit(rs),
        0 <= j < rs.len(),
        rs[j].focus_info is Some,
    ensures
        exists|i: int|
            #![trigger by_recency(apps_of(used_after(Seq::empty(), rs)), app_seen())[i]]
            0 <= i < by_recency(apps_of(used_after(Seq::empty(), rs)), app_seen()).len() && ({
                let a = by_recency(apps_of(used_after(Seq::empty(), rs)), app_seen())[i];
                a.pid == rs[j].focus_info->0.pid && a.process_start_time
                    == rs[j].focus_info->0.process_start_time
            }),
{
    let ss = used_after(Seq::empty(), rs);
    let f = rs[j].focus_info->0;
    let k = (f.pid, f.process_start_time);
    let pred = on_process(f.pid, f.process_start_time);
    rs.lemma_filter_contains(pred, j);
    assert(rs.filter(pred).len() > 0);
    lemma_members_are_kept(ss, app_key(), k);
    lemma_kept_uses(rs, has_key(app_key(), k), pred);
    lemma_members(ss, app_key(), k);
    let ks = keys_of(ss, app_key());
    let m = choose|m: int| 0 <= m < ks.len() && ks[m] == k;
    let apps = apps_of(ss);
    let listed = by_recency(apps, app_seen());
    crate::grouping::law_by_recency_sorts(apps, app_seen());
    assert(apps.contains(apps[m]));
    lemma_same_items(apps, listed, apps[m]);
    let i = choose|i: int| 0 <= i < listed.len() && listed[i] == apps[m];
    assert(app_key()(members(ss, app_key(), k)[0]) == k);
    assert(listed[i].pid == f.pid);
}

} // verus!
