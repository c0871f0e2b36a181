//! The use of applications as it is listed: one entry per process, with short-lived processes of
//! the same name drawn together.

use crate::aggregate::{
    AggregatedActivity, AppView, EphemeralGroup, EphemeralView, TemporalGroup, TemporalView,
    WindowActivity, WindowView,
};
use crate::display::{pretty, pretty_duration};
use crate::grouping::{
    by_recency, kept, keys_of, lemma_by_recency_views, members, seen_by, sort_by_recency, sum_of,
    LastSeen,
};
use crate::numbers::{decimal, push_number, push_signed, signed_decimal};
use crate::snapshot::{SnapshotApp, SnapshotAppView, SnapshotWindow, SnapshotWindowView};
use crate::text::push_text;
use crate::time::Timestamp;
use crate::views::{group_views, lemma_take_all, lemma_take_succ, lemma_views_push, views};
use crate::window_groups::saturated;
use vstd::prelude::*;

verus! {

/// The average of a total, and 0 where there is nothing.
pub open spec fn average(total: int, count: int) -> int {
    if count > 0 {
        total / count
    } else {
        0
    }
}

/// How a window is listed.
pub open spec fn window_item(w: WindowView) -> SnapshotWindowView {
    SnapshotWindowView {
        window_id: decimal(w.window_id as nat),
        window_title: w.window_title,
        first_seen: w.first_seen,
        last_seen: w.last_seen,
        duration_seconds: w.duration_seconds as u64,
        is_group: false,
    }
}

/// How a group of short-lived windows is listed.
pub open spec fn ephemeral_item(g: EphemeralView) -> SnapshotWindowView {
    SnapshotWindowView {
        window_id: "group:"@ + g.title_key,
        window_title: "(short-lived) ×"@ + decimal(g.distinct_ids.len()) + " avg "@ + pretty(
            average(g.total_duration_seconds, g.occurrence_count),
        ),
        first_seen: g.first_seen,
        last_seen: g.last_seen,
        duration_seconds: g.total_duration_seconds as u64,
        is_group: true,
    }
}

/// How the group at `index` of windows in use around the same time is listed.
pub open spec fn temporal_item(g: TemporalView, index: int) -> SnapshotWindowView {
    SnapshotWindowView {
        window_id: "group-temporal:"@ + g.title_key + ":"@ + signed_decimal(
            g.anchor_last_seen.secs(),
        ) + ":"@ + decimal(index as nat),
        window_title: "(temporal locality) ×"@ + decimal(g.occurrence_count as nat) + " avg "@
            + pretty(average(g.total_duration_seconds, g.occurrence_count)) + " max "@ + pretty(
            g.max_duration_seconds,
        ),
        first_seen: g.first_seen,
        last_seen: g.last_seen,
        duration_seconds: g.total_duration_seconds as u64,
        is_group: true,
    }
}

pub open spec fn item_seen() -> spec_fn(SnapshotWindowView) -> Timestamp {
    |w: SnapshotWindowView| w.last_seen
}

/// The windows and groups of a process, in the order of the lists.
pub open spec fn window_items(a: AppView) -> Seq<SnapshotWindowView> {
    a.windows.map_values(|w: WindowView| window_item(w)) + a.ephemeral_groups.map_values(
        |g: EphemeralView| ephemeral_item(g),
    ) + Seq::new(a.temporal_groups.len(), |i: int| temporal_item(a.temporal_groups[i], i))
}

/// How a process is listed: its windows and groups from the one seen last to the one seen first.
pub open spec fn app_item(a: AppView) -> SnapshotAppView {
    SnapshotAppView {
        app_name: a.app_name,
        pid: a.pid,
        process_start_time: a.process_start_time,
        windows: by_recency(window_items(a), item_seen()),
        total_duration_secs: a.total_duration_seconds as u64,
        total_duration_pretty: pretty(a.total_duration_seconds),
    }
}

/// The process was in use for at most `limit` seconds.
pub open spec fn is_brief(limit: int) -> spec_fn(AppView) -> bool {
    |a: AppView| a.total_duration_seconds <= limit
}

/// The process was in use for more than `limit` seconds.
pub open spec fn is_lasting(limit: int) -> spec_fn(AppView) -> bool {
    |a: AppView| a.total_duration_seconds > limit
}

pub open spec fn app_name_of() -> spec_fn(AppView) -> Seq<char> {
    |a: AppView| a.app_name
}

pub open spec fn app_total() -> spec_fn(AppView) -> int {
    |a: AppView| a.total_duration_seconds
}

/// The earliest instant at which one of the processes was seen, but no later than `now`.
pub open spec fn first_of(ms: Seq<AppView>, now: Timestamp) -> Timestamp
    decreases ms.len(),
{
    if ms.len() == 0 {
        now
    } else {
        first_of(ms.drop_last(), now).earlier(ms.last().first_seen)
    }
}

/// The latest instant at which one of the processes was seen, but no earlier than `now`.
pub open spec fn last_of(ms: Seq<AppView>, now: Timestamp) -> Timestamp
    decreases ms.len(),
{
    if ms.len() == 0 {
        now
    } else {
        last_of(ms.drop_last(), now).later(ms.last().last_seen)
    }
}

/// The duration, the number and the start of the process in use longest; the first of them where
/// there are several, and zeros where none was in use.
pub open spec fn longest(ms: Seq<AppView>) -> (int, i32, u64)
    decreases ms.len(),
{
    if ms.len() == 0 {
        (0, 0, 0)
    } else {
        let before = longest(ms.drop_last());
        let a = ms.last();
        if a.total_duration_seconds > before.0 {
            (a.total_duration_seconds, a.pid, a.process_start_time)
        } else {
            before
        }
    }
}

/// How brief processes of the same name are listed together.
pub open spec fn brief_item(name: Seq<char>, ms: Seq<AppView>, now: Timestamp) -> SnapshotAppView {
    let total = saturated(sum_of(ms, app_total()));
    SnapshotAppView {
        app_name: name,
        pid: longest(ms).1,
        process_start_time: longest(ms).2,
        windows: seq![
            SnapshotWindowView {
                window_id: "app-group:"@ + name,
                window_title: "×"@ + decimal(ms.len()) + " avg "@ + pretty(
                    average(total, ms.len() as int),
                ),
                first_seen: first_of(ms, now),
                last_seen: last_of(ms, now),
                duration_seconds: total as u64,
                is_group: true,
            },
        ],
        total_duration_secs: total as u64,
        total_duration_pretty: pretty(total),
    }
}

/// The entries of brief processes with one of the given names, where at least `min` share it.
pub open spec fn brief_items(
    brief: Seq<AppView>,
    names: Seq<Seq<char>>,
    min: int,
    now: Timestamp,
) -> Seq<SnapshotAppView>
    decreases names.len(),
{
    if names.len() == 0 {
        Seq::empty()
    } else {
        let before = brief_items(brief, names.drop_last(), min, now);
        let ms = members(brief, app_name_of(), names.last());
        if ms.len() >= min {
            before.push(brief_item(names.last(), ms, now))
        } else {
            before
        }
    }
}

/// The instant by which entries are ordered: that at which the first of their windows was last
/// seen, and the epoch where there is none.
pub open spec fn entry_seen() -> spec_fn(SnapshotAppView) -> Timestamp {
    |a: SnapshotAppView|
        if a.windows.len() > 0 {
            a.windows[0].last_seen
        } else {
            Timestamp::spec_epoch()
        }
}

/// The list of applications: processes in use for longer than `limit` seconds, and brief ones
/// drawn together by name where at least `min` share it, from the entry seen last to the one seen
/// first.
pub open spec fn app_tree(
    apps: Seq<AppView>,
    limit: int,
    min: int,
    now: Timestamp,
) -> Seq<SnapshotAppView> {
    let brief = kept(apps, is_brief(limit));
    by_recency(
        kept(apps, is_lasting(limit)).map_values(|a: AppView| app_item(a)) + brief_items(
            brief,
            keys_of(brief, app_name_of()),
            min,
            now,
        ),
        entry_seen(),
    )
}

impl LastSeen for SnapshotWindow {
    open spec fn seen(self) -> Timestamp {
        self.last_seen
    }

    fn last_seen(&self) -> (r: Timestamp) {
        self.last_seen
    }
}

impl LastSeen for SnapshotApp {
    open spec fn seen(self) -> Timestamp {
        entry_seen()(self@)
    }

    fn last_seen(&self) -> (r: Timestamp) {
        if self.windows.len() > 0 {
            assert(self@.windows[0] == self.windows@[0]@);
            self.windows[0].last_seen
        } else {
            Timestamp::epoch()
        }
    }
}

fn average_of(total: u64, count: u64) -> (r: u64)
    ensures
        r == average(total as int, count as int),
{
    if count > 0 {
        total / count
    } else {
        0
    }
}

fn list_window(w: &WindowActivity) -> (r: SnapshotWindow)
    ensures
        r@ == window_item(w@),
{
    SnapshotWindow {
        window_id: crate::numbers::number_text(w.window_id as u64),
        window_title: (*w.window_title).clone(),
        first_seen: w.first_seen,
        last_seen: w.last_seen,
        duration_seconds: w.duration_seconds,
        is_group: false,
    }
}

fn list_ephemeral(g: &EphemeralGroup) -> (r: SnapshotWindow)
    ensures
        r@ == ephemeral_item(g@),
{
    let avg: u64 = average_of(g.total_duration_seconds, g.occurrence_count as u64);
    let mut title = "(short-lived) ×".to_string();
    push_number(&mut title, g.distinct_ids.len() as u64);
    push_text(&mut title, " avg ");
    push_text(&mut title, pretty_duration(avg).as_str());
    let mut id = "group:".to_string();
    push_text(&mut id, g.title_key.as_str());
    SnapshotWindow {
        window_id: id,
        window_title: title,
        first_seen: g.first_seen,
        last_seen: g.last_seen,
        duration_seconds: g.total_duration_seconds,
        is_group: true,
    }
}

fn list_temporal(g: &TemporalGroup, index: usize) -> (r: SnapshotWindow)
    ensures
        r@ == temporal_item(g@, index as int),
{
    let avg: u64 = average_of(g.total_duration_seconds, g.occurrence_count as u64);
    let mut title = "(temporal locality) ×".to_string();
    push_number(&mut title, g.occurrence_count as u64);
    push_text(&mut title, " avg ");
    push_text(&mut title, pretty_duration(avg).as_str());
    push_text(&mut title, " max ");
    push_text(&mut title, pretty_duration(g.max_duration_seconds).as_str());
    let mut id = "group-temporal:".to_string();
    push_text(&mut id, g.title_key.as_str());
    push_text(&mut id, ":");
    push_signed(&mut id, g.anchor_last_seen.timestamp());
    push_text(&mut id, ":");
    push_number(&mut id, index as u64);
    SnapshotWindow {
        window_id: id,
        window_title: title,
        first_seen: g.first_seen,
        last_seen: g.last_seen,
        duration_seconds: g.total_duration_seconds,
        is_group: true,
    }
}

fn list_windows(a: &AggregatedActivity) -> (r: Vec<SnapshotWindow>)
    ensures
        views(r@) == window_items(a@),
{
    broadcast use lemma_views_push;

    let ghost ws = a@.windows.map_values(|w: WindowView| window_item(w));
    let ghost es = a@.ephemeral_groups.map_values(|g: EphemeralView| ephemeral_item(g));
    let ghost ts = Seq::new(
        a@.temporal_groups.len(),
        |i: int| temporal_item(a@.temporal_groups[i], i),
    );
    let ghost all = ws + es + ts;
    let mut out: Vec<SnapshotWindow> = Vec::new();
    let mut i: usize = 0;
    assert(views(out@) =~= all.take(0));
    while i < a.windows.len()
        invariant
            ws == a@.windows.map_values(|w: WindowView| window_item(w)),
            all == ws + es + ts,
            i <= a.windows.len(),
            views(out@) == all.take(i as int),
        decreases a.windows.len() - i,
    {
        out.push(list_window(&a.windows[i]));
        assert(a@.windows[i as int] == a.windows@[i as int]@);
        assert(all[i as int] == ws[i as int]);
        proof {
            lemma_take_succ(all, i as int);
        }
        i += 1;
    }
    let mut j: usize = 0;
    while j < a.ephemeral_groups.len()
        invariant
            es == a@.ephemeral_groups.map_values(|g: EphemeralView| ephemeral_item(g)),
            all == ws + es + ts,
            ws.len() == a.windows.len(),
            j <= a.ephemeral_groups.len(),
            views(out@) == all.take(ws.len() + j),
        decreases a.ephemeral_groups.len() - j,
    {
        out.push(list_ephemeral(&a.ephemeral_groups[j]));
        assert(a@.ephemeral_groups[j as int] == a.ephemeral_groups@[j as int]@);
        assert(all[ws.len() + j] == es[j as int]);
        proof {
            lemma_take_succ(all, ws.len() + j);
        }
        j += 1;
    }
    let mut k: usize = 0;
    while k < a.temporal_groups.len()
        invariant
            ts == Seq::new(
                a@.temporal_groups.len(),
                |i: int| temporal_item(a@.temporal_groups[i], i),
            ),
            all == ws + es + ts,
            ws.len() == a.windows.len(),
            es.len() == a.ephemeral_groups.len(),
            k <= a.temporal_groups.len(),
            views(out@) == all.take(ws.len() + es.len() + k),
        decreases a.temporal_groups.len() - k,
    {
        out.push(list_temporal(&a.temporal_groups[k], k));
        assert(a@.temporal_groups[k as int] == a.temporal_groups@[k as int]@);
        assert(all[ws.len() + es.len() + k] == ts[k as int]);
        proof {
            lemma_take_succ(all, ws.len() + es.len() + k);
        }
        k += 1;
    }
    proof {
        lemma_take_all(all);
    }
    out
}

fn list_app(a: &AggregatedActivity) -> (r: SnapshotApp)
    ensures
        r@ == app_item(a@),
{
    let windows = list_windows(a);
    proof {
        lemma_by_recency_views(windows@, seen_by::<SnapshotWindow>(), item_seen());
    }
    let sorted = sort_by_recency(windows);
    SnapshotApp {
        app_name: (*a.app_name).clone(),
        pid: a.pid,
        process_start_time: a.process_start_time,
        windows: sorted,
        total_duration_secs: a.total_duration_seconds,
        total_duration_pretty: pretty_duration(a.total_duration_seconds),
    }
}

/// The entry of the brief processes with the given name, if there are at least `min`.
fn list_brief(
    apps: &Vec<AggregatedActivity>,
    limit: u64,
    name: &String,
    min: usize,
    now: Timestamp,
) -> (r: Option<SnapshotApp>)
    ensures
        ({
            let ms = members(kept(views(apps@), is_brief(limit as int)), app_name_of(), name@);
            match r {
                Some(item) => ms.len() >= min && item@ == brief_item(name@, ms, now),
                None => ms.len() < min,
            }
        }),
{
    let ghost all = views(apps@);
    let ghost brief = is_brief(limit as int);
    let mut count: usize = 0;
    let mut total: u64 = 0;
    let mut first_seen = now;
    let mut last_seen = now;
    let mut rep_pid: i32 = 0;
    let mut rep_start: u64 = 0;
    let mut max_dur: u64 = 0;
    let mut i: usize = 0;
    while i < apps.len()
        invariant
            all == views(apps@),
            brief == is_brief(limit as int),
            i <= apps.len(),
            count <= i,
            count == members(kept(all.take(i as int), brief), app_name_of(), name@).len(),
            0 <= sum_of(
                members(kept(all.take(i as int), brief), app_name_of(), name@),
                app_total(),
            ),
            total == saturated(
                sum_of(
                    members(kept(all.take(i as int), brief), app_name_of(), name@),
                    app_total(),
                ),
            ),
            first_seen == first_of(
                members(kept(all.take(i as int), brief), app_name_of(), name@),
                now,
            ),
            last_seen == last_of(
                members(kept(all.take(i as int), brief), app_name_of(), name@),
                now,
            ),
            longest(members(kept(all.take(i as int), brief), app_name_of(), name@)) == (
                max_dur as int,
                rep_pid,
                rep_start,
            ),
        decreases apps.len() - i,
    {
        let ghost ms = members(kept(all.take(i as int), brief), app_name_of(), name@);
        proof {
            lemma_take_succ(all, i as int);
        }
        let a = &apps[i];
        if a.total_duration_seconds <= limit && *a.app_name == *name {
            proof {
                let ks = kept(all.take(i as int), brief);
                assert(kept(all.take(i + 1), brief) == ks.push(a@));
                assert(ks.push(a@).drop_last() =~= ks);
                assert(members(ks.push(a@), app_name_of(), name@) == ms.push(a@));
                assert(ms.push(a@).drop_last() =~= ms);
            }
            count = count + 1;
            total = total.saturating_add(a.total_duration_seconds);
            first_seen = first_seen.min_with(&a.first_seen);
            last_seen = last_seen.max_with(&a.last_seen);
            if a.total_duration_seconds > max_dur {
                max_dur = a.total_duration_seconds;
                rep_pid = a.pid;
                rep_start = a.process_start_time;
            }
        } else {
            proof {
                let ks = kept(all.take(i as int), brief);
                if a.total_duration_seconds <= limit {
                    assert(kept(all.take(i + 1), brief) == ks.push(a@));
                    assert(ks.push(a@).drop_last() =~= ks);
                }
                assert(members(kept(all.take(i + 1), brief), app_name_of(), name@) == ms);
            }
        }
        i += 1;
    }
    proof {
        lemma_take_all(all);
    }
    if count < min {
        return None;
    }
    let avg: u64 = average_of(total, count as u64);
    let mut title = "×".to_string();
    push_number(&mut title, count as u64);
    push_text(&mut title, " avg ");
    push_text(&mut title, pretty_duration(avg).as_str());
    let mut id = "app-group:".to_string();
    push_text(&mut id, name.as_str());
    let mut windows: Vec<SnapshotWindow> = Vec::new();
    windows.push(
        SnapshotWindow {
            window_id: id,
            window_title: title,
            first_seen,
            last_seen,
            duration_seconds: total,
            is_group: true,
        },
    );
    let item = SnapshotApp {
        app_name: name.clone(),
        pid: rep_pid,
        process_start_time: rep_start,
        windows,
        total_duration_secs: total,
        total_duration_pretty: pretty_duration(total),
    };
    proof {
        let ms = members(kept(all, brief), app_name_of(), name@);
        assert(item@.windows =~= brief_item(name@, ms, now).windows);
        assert(item@ =~= brief_item(name@, ms, now));
    }
    Some(item)
}

fn has_name(names: &Vec<String>, name: &String) -> (r: bool)
    ensures
        r == views(names@).contains(name@),
{
    let mut i: usize = 0;
    while i < names.len()
        invariant
            i <= names.len(),
            forall|j: int| 0 <= j < i ==> (#[trigger] views(names@)[j]) != name@,
        decreases names.len() - i,
    {
        if names[i] == *name {
            assert(views(names@)[i as int] == name@);
            return true;
        }
        i += 1;
    }
    false
}

/// The list of applications, at the instant `now`.
pub fn build_app_tree_at(
    apps: &Vec<AggregatedActivity>,
    app_short_max_duration_secs: u64,
    app_short_min_distinct: usize,
    now: Timestamp,
) -> (r: Vec<SnapshotApp>)
    ensures
        views(r@) == app_tree(
            views(apps@),
            app_short_max_duration_secs as int,
            app_short_min_distinct as int,
            now,
        ),
{
    broadcast use group_views;

    let limit: u64 = app_short_max_duration_secs;
    let min: usize = app_short_min_distinct;
    let ghost all = views(apps@);
    let ghost lasting = is_lasting(limit as int);
    let ghost brief = is_brief(limit as int);
    let ghost make = |a: AppView| app_item(a);
    let ghost briefs = kept(all, brief);
    let mut items: Vec<SnapshotApp> = Vec::new();
    let mut i: usize = 0;
    assert(views(items@) =~= kept(all.take(0), lasting).map_values(make));
    while i < apps.len()
        invariant
            all == views(apps@),
            lasting == is_lasting(limit as int),
            make == (|a: AppView| app_item(a)),
            i <= apps.len(),
            views(items@) == kept(all.take(i as int), lasting).map_values(make),
        decreases apps.len() - i,
    {
        proof {
            lemma_take_succ(all, i as int);
        }
        if apps[i].total_duration_seconds > limit {
            items.push(list_app(&apps[i]));
            assert(kept(all.take(i as int), lasting).push(all[i as int]).map_values(make) =~= kept(
                all.take(i as int),
                lasting,
            ).map_values(make).push(make(all[i as int])));
        }
        i += 1;
    }
    let ghost first = views(items@);
    let mut names: Vec<String> = Vec::new();
    let mut k: usize = 0;
    proof {
        lemma_take_all(all);
        assert(views(names@) =~= keys_of(kept(all.take(0), brief), app_name_of()));
        assert(first + brief_items(briefs, views(names@), min as int, now) =~= first);
    }
    while k < apps.len()
        invariant
            all == views(apps@),
            brief == is_brief(limit as int),
            briefs == kept(all, brief),
            k <= apps.len(),
            views(names@) == keys_of(kept(all.take(k as int), brief), app_name_of()),
            views(items@) == first + brief_items(briefs, views(names@), min as int, now),
        decreases apps.len() - k,
    {
        proof {
            lemma_take_succ(all, k as int);
        }
        if apps[k].total_duration_seconds <= limit {
            let ghost ks = kept(all.take(k as int), brief);
            proof {
                assert(kept(all.take(k + 1), brief) == ks.push(all[k as int]));
                assert(ks.push(all[k as int]).map_values(app_name_of()).drop_last()
                    =~= ks.map_values(app_name_of()));
            }
            let name = (*apps[k].app_name).clone();
            if !has_name(&names, &name) {
                let ghost done = views(names@);
                let ghost n = name@;
                let ghost ms = members(briefs, app_name_of(), n);
                let entry = list_brief(apps, limit, &name, min, now);
                names.push(name);
                proof {
                    assert(views(names@) == done.push(n));
                    assert(done.push(n).drop_last() =~= done);
                    assert(brief_items(briefs, done.push(n), min as int, now) == if ms.len() >= min {
                        brief_items(briefs, done, min as int, now).push(brief_item(n, ms, now))
                    } else {
                        brief_items(briefs, done, min as int, now)
                    });
                }
                match entry {
                    Some(item) => {
                        let ghost before = views(items@);
                        let ghost shown = brief_items(briefs, done, min as int, now);
                        let ghost entry_view = item@;
                        assert(entry_view == brief_item(n, ms, now));
                        items.push(item);
                        assert(views(items@) == before.push(entry_view));
                        assert((first + shown).push(entry_view) =~= first + shown.push(entry_view));
                    },
                    None => {},
                }
            }
        }
        k += 1;
    }
    proof {
        lemma_take_all(all);
        lemma_by_recency_views(items@, seen_by::<SnapshotApp>(), entry_seen());
    }
    sort_by_recency(items)
}

/// The list of applications.
pub fn build_app_tree(
    apps: &Vec<AggregatedActivity>,
    app_short_max_duration_secs: u64,
    app_short_min_distinct: usize,
) -> (r: Vec<SnapshotApp>)
    ensures
        exists|now: Timestamp|
            views(r@) == #[trigger] app_tree(
                views(apps@),
                app_short_max_duration_secs as int,
                app_short_min_distinct as int,
                now,
            ),
{
    let now = Timestamp::now();
    build_app_tree_at(apps, app_short_max_duration_secs, app_short_min_distinct, now)
}

} // verus!
