//! What the list of applications has to do with their use: each lasting process has an entry of
//! its own, brief ones share an entry by name where there are enough of them, and nothing else is
//! listed.

use crate::aggregate::{AppView, EphemeralView, TemporalView, WindowView};
use crate::app_tree::{
    app_item, app_name_of, app_total, app_tree, brief_item, brief_items, entry_seen,
    ephemeral_item, first_of, is_brief, is_lasting, item_seen, last_of, longest, temporal_item,
    window_item, window_items,
};
use crate::display::pretty;
use crate::grouping::{
    by_recency, kept, keys_of, law_by_recency_sorts, lemma_distinct, lemma_kept, lemma_members,
    members, sum_of,
};
use crate::numbers::decimal;
use crate::snapshot::{SnapshotAppView, SnapshotWindowView};
use crate::time::{law_instants_are_ordered, Timestamp};
use crate::use_totals::lemma_same_items;
use vstd::prelude::*;

verus! {

/// The line shows the window, with its own number and title.
pub open spec fn line_of_window(x: SnapshotWindowView, w: WindowView) -> bool {
    &&& x.window_id == decimal(w.window_id as nat)
    &&& x.window_title == w.window_title
    &&& x.first_seen == w.first_seen
    &&& x.last_seen == w.last_seen
    &&& x.duration_seconds == w.duration_seconds as u64
    &&& !x.is_group
}

/// The line shows the group of short-lived windows.
pub open spec fn line_of_brief_group(x: SnapshotWindowView, g: EphemeralView) -> bool {
    &&& x.window_id == "group:"@ + g.title_key
    &&& x.first_seen == g.first_seen
    &&& x.last_seen == g.last_seen
    &&& x.duration_seconds == g.total_duration_seconds as u64
    &&& x.is_group
}

/// The line shows the group of windows in use around the same time.
pub open spec fn line_of_near_group(x: SnapshotWindowView, g: TemporalView) -> bool {
    &&& x.first_seen == g.first_seen
    &&& x.last_seen == g.last_seen
    &&& x.duration_seconds == g.total_duration_seconds as u64
    &&& x.is_group
}

/// The lines show each window and each group, nothing else, from the one seen last to the one seen
/// first.
pub open spec fn lines_of(lines: Seq<SnapshotWindowView>, a: AppView) -> bool {
    &&& lines.len() == a.windows.len() + a.ephemeral_groups.len() + a.temporal_groups.len()
    &&& forall|i: int|
        0 <= i < a.windows.len() ==> exists|k: int|
            0 <= k < lines.len() && line_of_window(#[trigger] lines[k], #[trigger] a.windows[i])
    &&& forall|i: int|
        0 <= i < a.ephemeral_groups.len() ==> exists|k: int|
            0 <= k < lines.len() && line_of_brief_group(
                #[trigger] lines[k],
                #[trigger] a.ephemeral_groups[i],
            )
    &&& forall|i: int|
        0 <= i < a.temporal_groups.len() ==> exists|k: int|
            0 <= k < lines.len() && line_of_near_group(
                #[trigger] lines[k],
                #[trigger] a.temporal_groups[i],
            )
    &&& forall|i: int, j: int|
        0 <= i < j < lines.len() ==> !(#[trigger] lines[i]).last_seen.before(
            (#[trigger] lines[j]).last_seen,
        )
}

/// The entry shows the process, with all its windows and groups.
pub open spec fn entry_of_app(e: SnapshotAppView, a: AppView) -> bool {
    &&& e.app_name == a.app_name
    &&& e.pid == a.pid
    &&& e.process_start_time == a.process_start_time
    &&& e.total_duration_secs == a.total_duration_seconds as u64
    &&& e.total_duration_pretty == pretty(a.total_duration_seconds)
    &&& lines_of(e.windows, a)
}

/// The process has the name and was in use for no more than `limit` seconds.
pub open spec fn brief_named(limit: int, name: Seq<char>) -> spec_fn(AppView) -> bool {
    |a: AppView| a.total_duration_seconds <= limit && a.app_name == name
}

/// How many seconds the processes were in use together, as far as a counter goes.
pub open spec fn time_of(apps: Seq<AppView>) -> int
    decreases apps.len(),
{
    if apps.len() == 0 {
        0
    } else {
        time_of(apps.drop_last()) + apps.last().total_duration_seconds
    }
}

/// The entry sums up the brief processes of one name: how many there are, how long they were in
/// use together and on average, and from when to when. It goes by the process that was in use
/// longest.
pub open spec fn entry_of_brief(
    e: SnapshotAppView,
    name: Seq<char>,
    ms: Seq<AppView>,
    now: Timestamp,
) -> bool {
    let total = if time_of(ms) > u64::MAX {
        u64::MAX as int
    } else {
        time_of(ms)
    };
    &&& ms.len() > 0
    &&& e.app_name == name
    &&& e.total_duration_secs == total as u64
    &&& e.total_duration_pretty == pretty(total)
    &&& e.windows.len() == 1
    &&& e.windows[0].window_id == "app-group:"@ + name
    &&& e.windows[0].window_title == "×"@ + decimal(ms.len()) + " avg "@ + pretty(
        total / ms.len() as int,
    )
    &&& e.windows[0].duration_seconds == total as u64
    &&& e.windows[0].is_group
    &&& !now.before(e.windows[0].first_seen)
    &&& !e.windows[0].last_seen.before(now)
    &&& forall|i: int|
        0 <= i < ms.len() ==> !(#[trigger] ms[i]).first_seen.before(e.windows[0].first_seen)
            && !e.windows[0].last_seen.before(ms[i].last_seen)
    &&& (exists|i: int| 0 <= i < ms.len() && (#[trigger] ms[i]).total_duration_seconds > 0)
        ==> exists|i: int| 0 <= i < ms.len() && #[trigger] goes_by(e, ms, i)
}

/// The entry goes by the process at `i`, which was in use longest.
pub open spec fn goes_by(e: SnapshotAppView, ms: Seq<AppView>, i: int) -> bool {
    &&& e.pid == ms[i].pid
    &&& e.process_start_time == ms[i].process_start_time
    &&& forall|j: int|
        0 <= j < ms.len() ==> (#[trigger] ms[j]).total_duration_seconds
            <= ms[i].total_duration_seconds
}

/// When the entry was last seen: with its first line, or never.
pub open spec fn entry_last_seen(e: SnapshotAppView) -> Option<Timestamp> {
    if e.windows.len() > 0 {
        Some(e.windows[0].last_seen)
    } else {
        None
    }
}

proof fn lemma_lines(a: AppView)
    ensures
        lines_of(by_recency(window_items(a), item_seen()), a),
{
    let items = window_items(a);
    let lines = by_recency(items, item_seen());
    law_by_recency_sorts(items, item_seen());
    let n = a.windows.len() as int;
    let m = a.ephemeral_groups.len() as int;
    assert forall|i: int| 0 <= i < n implies exists|k: int|
        0 <= k < lines.len() && line_of_window(#[trigger] lines[k], #[trigger] a.windows[i]) by {
        assert(items[i] == window_item(a.windows[i]));
        assert(items.contains(items[i]));
        lemma_same_items(items, lines, items[i]);
        let k = choose|k: int| 0 <= k < lines.len() && lines[k] == items[i];
        assert(line_of_window(lines[k], a.windows[i]));
    }
    assert forall|i: int| 0 <= i < m implies exists|k: int|
        0 <= k < lines.len() && line_of_brief_group(
            #[trigger] lines[k],
            #[trigger] a.ephemeral_groups[i],
        ) by {
        assert(items[n + i] == ephemeral_item(a.ephemeral_groups[i]));
        assert(items.contains(items[n + i]));
        lemma_same_items(items, lines, items[n + i]);
        let k = choose|k: int| 0 <= k < lines.len() && lines[k] == items[n + i];
        assert(line_of_brief_group(lines[k], a.ephemeral_groups[i]));
    }
    assert forall|i: int| 0 <= i < a.temporal_groups.len() implies exists|k: int|
        0 <= k < lines.len() && line_of_near_group(
            #[trigger] lines[k],
            #[trigger] a.temporal_groups[i],
        ) by {
        assert(items[n + m + i] == temporal_item(a.temporal_groups[i], i));
        assert(items.contains(items[n + m + i]));
        lemma_same_items(items, lines, items[n + m + i]);
        let k = choose|k: int| 0 <= k < lines.len() && lines[k] == items[n + m + i];
        assert(line_of_near_group(lines[k], a.temporal_groups[i]));
    }
    assert forall|i: int, j: int| 0 <= i < j < lines.len() implies !(
    #[trigger] lines[i]).last_seen.before((#[trigger] lines[j]).last_seen) by {
        assert(!item_seen()(lines[i]).before(item_seen()(lines[j])));
    }
}

/// The entry of a process shows all its windows and groups.
pub proof fn law_entry_shows_the_process(a: AppView)
    ensures
        entry_of_app(app_item(a), a),
{
    lemma_lines(a);
}


proof fn lemma_brief_named(apps: Seq<AppView>, limit: int, name: Seq<char>)
    ensures
        members(kept(apps, is_brief(limit)), app_name_of(), name) == apps.filter(
            brief_named(limit, name),
        ),
    decreases apps.len(),
{
    reveal(Seq::filter);
    let f = apps.filter(brief_named(limit, name));
    if apps.len() > 0 {
        let b = apps.drop_last();
        lemma_brief_named(b, limit, name);
        let kb = kept(b, is_brief(limit));
        assert(kb.push(apps.last()).drop_last() =~= kb);
    } else {
        assert(members(kept(apps, is_brief(limit)), app_name_of(), name) =~= f);
    }
}

proof fn lemma_time_of(ms: Seq<AppView>)
    ensures
        sum_of(ms, app_total()) == time_of(ms),
    decreases ms.len(),
{
    if ms.len() > 0 {
        lemma_time_of(ms.drop_last());
    }
}

proof fn lemma_span(ms: Seq<AppView>, now: Timestamp)
    ensures
        !now.before(first_of(ms, now)),
        !last_of(ms, now).before(now),
        forall|i: int|
            0 <= i < ms.len() ==> !(#[trigger] ms[i]).first_seen.before(first_of(ms, now))
                && !last_of(ms, now).before(ms[i].last_seen),
    decreases ms.len(),
{
    law_instants_are_ordered(now, now, now);
    if ms.len() > 0 {
        let b = ms.drop_last();
        lemma_span(b, now);
        let f = first_of(b, now);
        let x = ms.last().first_seen;
        let l = last_of(b, now);
        let y = ms.last().last_seen;
        law_instants_are_ordered(f, x, now);
        law_instants_are_ordered(now, x, f);
        law_instants_are_ordered(l, y, now);
        law_instants_are_ordered(y, now, l);
        assert forall|i: int| 0 <= i < ms.len() implies !(#[trigger] ms[i]).first_seen.before(
            first_of(ms, now),
        ) && !last_of(ms, now).before(ms[i].last_seen) by {
            if i < b.len() {
                assert(b[i] == ms[i]);
                law_instants_are_ordered(ms[i].first_seen, x, f);
                law_instants_are_ordered(y, ms[i].last_seen, l);
                law_instants_are_ordered(l, y, ms[i].last_seen);
            } else {
                law_instants_are_ordered(x, x, f);
                law_instants_are_ordered(y, y, l);
            }
        }
    }
}

proof fn lemma_longest(ms: Seq<AppView>)
    ensures
        longest(ms).0 >= 0,
        forall|i: int| 0 <= i < ms.len() ==> (#[trigger] ms[i]).total_duration_seconds <= longest(
            ms,
        ).0,
        longest(ms).0 > 0 ==> exists|i: int|
            0 <= i < ms.len() && (#[trigger] ms[i]).total_duration_seconds == longest(ms).0
                && ms[i].pid == longest(ms).1 && ms[i].process_start_time == longest(ms).2,
    decreases ms.len(),
{
    if ms.len() > 0 {
        let b = ms.drop_last();
        let n = ms.len() - 1;
        lemma_longest(b);
        assert(forall|i: int| 0 <= i < b.len() ==> b[i] == ms[i]);
        if ms.last().total_duration_seconds > longest(b).0 {
            assert(ms[n].total_duration_seconds == longest(ms).0);
        } else if longest(b).0 > 0 {
            let i = choose|i: int|
                0 <= i < b.len() && (#[trigger] b[i]).total_duration_seconds == longest(b).0
                    && b[i].pid == longest(b).1 && b[i].process_start_time == longest(b).2;
            assert(ms[i].total_duration_seconds == longest(ms).0);
        }
    }
}

/// The entry of brief processes sums them up.
pub proof fn law_entry_sums_up_brief_processes(
    name: Seq<char>,
    ms: Seq<AppView>,
    now: Timestamp,
)
    requires
        ms.len() > 0,
    ensures
        entry_of_brief(brief_item(name, ms, now), name, ms, now),
{
    let e = brief_item(name, ms, now);
    lemma_time_of(ms);
    lemma_span(ms, now);
    lemma_longest(ms);
    if exists|i: int| 0 <= i < ms.len() && (#[trigger] ms[i]).total_duration_seconds > 0 {
        let i = choose|i: int|
            0 <= i < ms.len() && (#[trigger] ms[i]).total_duration_seconds == longest(ms).0
                && ms[i].pid == longest(ms).1 && ms[i].process_start_time == longest(ms).2;
        assert(goes_by(e, ms, i));
    }
}

spec fn brief_listed(
    e: SnapshotAppView,
    brief: Seq<AppView>,
    names: Seq<Seq<char>>,
    min: int,
    now: Timestamp,
) -> bool {
    exists|k: int|
        0 <= k < names.len() && members(brief, app_name_of(), #[trigger] names[k]).len() >= min
            && e == brief_item(names[k], members(brief, app_name_of(), names[k]), now)
}

proof fn lemma_brief_items(
    brief: Seq<AppView>,
    names: Seq<Seq<char>>,
    min: int,
    now: Timestamp,
)
    ensures
        forall|i: int|
            0 <= i < brief_items(brief, names, min, now).len() ==> #[trigger] brief_listed(
                brief_items(brief, names, min, now)[i],
                brief,
                names,
                min,
                now,
            ),
        forall|k: int|
            0 <= k < names.len() && members(brief, app_name_of(), #[trigger] names[k]).len() >= min
                ==> brief_items(brief, names, min, now).contains(
                brief_item(names[k], members(brief, app_name_of(), names[k]), now),
            ),
    decreases names.len(),
{
    if names.len() > 0 {
        let b = names.drop_last();
        let n = names.len() - 1;
        lemma_brief_items(brief, b, min, now);
        let xb = brief_items(brief, b, min, now);
        let x = brief_items(brief, names, min, now);
        assert forall|i: int| 0 <= i < x.len() implies #[trigger] brief_listed(
            x[i],
            brief,
            names,
            min,
            now,
        ) by {
            if i < xb.len() {
                assert(brief_listed(xb[i], brief, b, min, now));
                let k = choose|k: int|
                    0 <= k < b.len() && members(brief, app_name_of(), #[trigger] b[k]).len() >= min
                        && xb[i] == brief_item(b[k], members(brief, app_name_of(), b[k]), now);
                assert(names[k] == b[k]);
            } else {
                assert(members(brief, app_name_of(), names[n]).len() >= min);
            }
        }
        assert forall|k: int|
            0 <= k < names.len() && members(brief, app_name_of(), #[trigger] names[k]).len()
                >= min implies x.contains(
            brief_item(names[k], members(brief, app_name_of(), names[k]), now),
        ) by {
            let e = brief_item(names[k], members(brief, app_name_of(), names[k]), now);
            if k < n {
                assert(b[k] == names[k]);
                assert(xb.contains(e));
                let i = choose|i: int| 0 <= i < xb.len() && xb[i] == e;
                assert(x[i] == e);
            } else {
                assert(x[x.len() - 1] == e);
            }
        }
    }
}

/// The entry shows a process that was in use for more than `limit` seconds.
pub open spec fn shows_lasting(e: SnapshotAppView, apps: Seq<AppView>, limit: int) -> bool {
    exists|i: int|
        0 <= i < apps.len() && (#[trigger] apps[i]).total_duration_seconds > limit && entry_of_app(
            e,
            apps[i],
        )
}

/// The entry sums up the brief processes of one name, of which there are at least `min`.
pub open spec fn shows_brief(
    e: SnapshotAppView,
    apps: Seq<AppView>,
    limit: int,
    min: int,
    now: Timestamp,
) -> bool {
    &&& apps.filter(brief_named(limit, e.app_name)).len() >= min
    &&& entry_of_brief(e, e.app_name, apps.filter(brief_named(limit, e.app_name)), now)
}

/// Every entry of the list shows a lasting process, or the brief processes of one name where there
/// are enough of them.
pub proof fn law_list_makes_up_no_entry(
    apps: Seq<AppView>,
    limit: int,
    min: int,
    now: Timestamp,
    i: int,
)
    requires
        0 <= i < app_tree(apps, limit, min, now).len(),
    ensures
        shows_lasting(app_tree(apps, limit, min, now)[i], apps, limit) || shows_brief(
            app_tree(apps, limit, min, now)[i],
            apps,
            limit,
            min,
            now,
        ),
{
    let brief = kept(apps, is_brief(limit));
    let names = keys_of(brief, app_name_of());
    let lasting = kept(apps, is_lasting(limit));
    let own = lasting.map_values(|a: AppView| app_item(a));
    let shared = brief_items(brief, names, min, now);
    let all = own + shared;
    let tree = app_tree(apps, limit, min, now);
    let e = tree[i];
    law_by_recency_sorts(all, entry_seen());
    assert(tree.contains(e));
    lemma_same_items(tree, all, e);
    let k = choose|k: int| 0 <= k < all.len() && all[k] == e;
    if k < own.len() {
        lemma_kept(apps, is_lasting(limit));
        assert(is_lasting(limit)(lasting[k]) && apps.contains(lasting[k]));
        let j = choose|j: int| 0 <= j < apps.len() && apps[j] == lasting[k];
        assert(e == app_item(apps[j]));
        law_entry_shows_the_process(apps[j]);
        assert(shows_lasting(e, apps, limit));
    } else {
        lemma_brief_items(brief, names, min, now);
        assert(shared[k - own.len()] == e);
        assert(brief_listed(e, brief, names, min, now));
        let j = choose|j: int|
            0 <= j < names.len() && members(brief, app_name_of(), #[trigger] names[j]).len() >= min
                && e == brief_item(names[j], members(brief, app_name_of(), names[j]), now);
        let name = names[j];
        assert(names.contains(name));
        lemma_members(brief, app_name_of(), name);
        lemma_brief_named(apps, limit, name);
        law_entry_sums_up_brief_processes(name, members(brief, app_name_of(), name), now);
        assert(e.app_name == name);
    }
}

/// The list misses no process: each one that was in use for more than `limit` seconds has an entry
/// of its own, and each briefer one shares that of its name where there are enough of them.
pub proof fn law_list_misses_no_process(
    apps: Seq<AppView>,
    limit: int,
    min: int,
    now: Timestamp,
    j: int,
)
    requires
        0 <= j < apps.len(),
    ensures
        apps[j].total_duration_seconds > limit ==> exists|i: int|
            0 <= i < app_tree(apps, limit, min, now).len() && entry_of_app(
                #[trigger] app_tree(apps, limit, min, now)[i],
                apps[j],
            ),
        apps[j].total_duration_seconds <= limit && apps.filter(
            brief_named(limit, apps[j].app_name),
        ).len() >= min ==> exists|i: int|
            0 <= i < app_tree(apps, limit, min, now).len() && entry_of_brief(
                #[trigger] app_tree(apps, limit, min, now)[i],
                apps[j].app_name,
                apps.filter(brief_named(limit, apps[j].app_name)),
                now,
            ),
{
    let brief = kept(apps, is_brief(limit));
    let names = keys_of(brief, app_name_of());
    let lasting = kept(apps, is_lasting(limit));
    let own = lasting.map_values(|a: AppView| app_item(a));
    let shared = brief_items(brief, names, min, now);
    let all = own + shared;
    let tree = app_tree(apps, limit, min, now);
    let a = apps[j];
    law_by_recency_sorts(all, entry_seen());
    assert(apps.contains(a));
    if a.total_duration_seconds > limit {
        lemma_kept(apps, is_lasting(limit));
        assert(is_lasting(limit)(a));
        assert(lasting.contains(a));
        let k = choose|k: int| 0 <= k < lasting.len() && lasting[k] == a;
        assert(all[k] == app_item(a));
        assert(all.contains(all[k]));
        lemma_same_items(all, tree, all[k]);
        let i = choose|i: int| 0 <= i < tree.len() && tree[i] == all[k];
        law_entry_shows_the_process(a);
        assert(entry_of_app(tree[i], a));
    } else if apps.filter(brief_named(limit, a.app_name)).len() >= min {
        let name = a.app_name;
        lemma_brief_named(apps, limit, name);
        lemma_kept(apps, is_brief(limit));
        assert(is_brief(limit)(a));
        assert(brief.contains(a));
        let m = choose|m: int| 0 <= m < brief.len() && brief[m] == a;
        lemma_distinct(brief.map_values(app_name_of()));
        assert(brief.map_values(app_name_of())[m] == name);
        assert(brief.map_values(app_name_of()).contains(name));
        assert(names.contains(name));
        let k = choose|k: int| 0 <= k < names.len() && names[k] == name;
        lemma_brief_items(brief, names, min, now);
        lemma_members(brief, app_name_of(), name);
        let e = brief_item(name, members(brief, app_name_of(), name), now);
        assert(members(brief, app_name_of(), names[k]).len() >= min);
        assert(shared.contains(e));
        let x = choose|x: int| 0 <= x < shared.len() && shared[x] == e;
        assert(all[own.len() + x] == e);
        assert(all.contains(e));
        lemma_same_items(all, tree, e);
        let i = choose|i: int| 0 <= i < tree.len() && tree[i] == e;
        law_entry_sums_up_brief_processes(name, members(brief, app_name_of(), name), now);
        assert(entry_of_brief(tree[i], name, apps.filter(brief_named(limit, name)), now));
    }
}

/// Entries come from the one seen last to the one seen first, by their first lines.
pub proof fn law_list_goes_by_recency(
    apps: Seq<AppView>,
    limit: int,
    min: int,
    now: Timestamp,
    i: int,
    j: int,
)
    requires
        0 <= i < j < app_tree(apps, limit, min, now).len(),
    ensures
        ({
            let a = entry_last_seen(app_tree(apps, limit, min, now)[i]);
            let b = entry_last_seen(app_tree(apps, limit, min, now)[j]);
            a is Some && b is Some ==> !a->0.before(b->0)
        }),
{
    let brief = kept(apps, is_brief(limit));
    let own = kept(apps, is_lasting(limit)).map_values(|a: AppView| app_item(a));
    let all = own + brief_items(brief, keys_of(brief, app_name_of()), min, now);
    law_by_recency_sorts(all, entry_seen());
    let tree = app_tree(apps, limit, min, now);
    assert(!entry_seen()(tree[i]).before(entry_seen()(tree[j])));
}

} // verus!
