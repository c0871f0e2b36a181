//! What the use of processes and windows has to do with the records: every record with a focus
//! counts, whatever its state, for exactly as long as it lasts in the period.

use crate::aggregate::{
    aggregated, all_keyed, app_key, app_of, app_secs, app_seen, apps_of, has_window,
    law_apps_share_out_the_time, law_each_app_appears_once, law_windows_of_an_app, regrouped,
    slice_end, slice_of, slice_secs, slice_start, slices, window_key, window_of, windows_of,
    AppView, SliceView, WindowView,
};
use crate::grouping::{
    by_recency, earliest, kept, keys_of, latest, law_by_recency_sorts, lemma_kept,
    lemma_members, lemma_slot, members, slot, sum_of,
};
use crate::records::RecordView;
use crate::time::{law_instants_are_ordered, Timestamp};
use crate::window_groups::{most_recent, ungrouped, window_seen, windows_only};
use crate::window_places::{has_window_id, ids_differ};
use crate::window_rules::{law_windows_are_sorted_out, sorted_out};
use vstd::prelude::*;

verus! {

/// When the use that a record shows starts: with the record, but not before the period.
pub open spec fn used_from(r: RecordView, since: Timestamp) -> Timestamp {
    if r.start_time.before(since) {
        since
    } else {
        r.start_time
    }
}

/// When the use that a record shows ends: with the record, or `now` where it has not ended.
pub open spec fn used_until(r: RecordView, now: Timestamp) -> Timestamp {
    if r.end_time is Some {
        r.end_time->0
    } else {
        now
    }
}

/// The whole seconds of use that a record shows in the period.
pub open spec fn seconds_used(r: RecordView, since: Timestamp, now: Timestamp) -> int {
    let secs = used_until(r, now).secs_since(used_from(r, since));
    if r.focus_info is Some && since.before(used_until(r, now)) && secs > 0 {
        secs
    } else {
        0
    }
}

/// The seconds of use that the records show together.
pub open spec fn total_used(rs: Seq<RecordView>, since: Timestamp, now: Timestamp) -> int
    decreases rs.len(),
{
    if rs.len() == 0 {
        0
    } else {
        total_used(rs.drop_last(), since, now) + seconds_used(rs.last(), since, now)
    }
}

/// The record shows use of the process.
pub open spec fn uses_process(since: Timestamp, now: Timestamp, pid: i32, start: u64) -> spec_fn(
    RecordView,
) -> bool {
    |r: RecordView|
        seconds_used(r, since, now) > 0 && r.focus_info->0.pid == pid
            && r.focus_info->0.process_start_time == start
}

/// The record shows use of the window, which has a title and a number.
pub open spec fn uses_window(
    since: Timestamp,
    now: Timestamp,
    pid: i32,
    start: u64,
    id: u32,
) -> spec_fn(RecordView) -> bool {
    |r: RecordView|
        seconds_used(r, since, now) > 0 && r.focus_info->0.pid == pid
            && r.focus_info->0.process_start_time == start && r.focus_info->0.window_id == id
            && id > 0 && r.focus_info->0.window_title.len() > 0
}

/// Some record shows use that starts at `t`, and none shows any before.
pub open spec fn first_used(rs: Seq<RecordView>, since: Timestamp, t: Timestamp) -> bool {
    &&& exists|i: int| 0 <= i < rs.len() && used_from(#[trigger] rs[i], since) == t
    &&& forall|i: int| 0 <= i < rs.len() ==> !used_from(#[trigger] rs[i], since).before(t)
}

/// Some record shows use that ends at `t`, and none shows any after it.
pub open spec fn last_used(rs: Seq<RecordView>, now: Timestamp, t: Timestamp) -> bool {
    &&& exists|i: int| 0 <= i < rs.len() && used_until(#[trigger] rs[i], now) == t
    &&& forall|i: int| 0 <= i < rs.len() ==> !t.before(used_until(#[trigger] rs[i], now))
}

spec fn slice_shown(r: RecordView, since: Timestamp, now: Timestamp) -> SliceView {
    SliceView {
        focus: r.focus_info->0,
        start: used_from(r, since),
        end: used_until(r, now),
        secs: seconds_used(r, since, now),
    }
}

proof fn lemma_slice_is(r: RecordView, since: Timestamp, now: Timestamp)
    ensures
        slice_of(r, since, now) == if seconds_used(r, since, now) > 0 {
            Some(slice_shown(r, since, now))
        } else {
            None
        },
        seconds_used(r, since, now) >= 0,
{
    law_instants_are_ordered(r.start_time, since, since);
}

/// The slices that are kept come one by one from the records that show them.
proof fn lemma_kept_slices(
    rs: Seq<RecordView>,
    since: Timestamp,
    now: Timestamp,
    keep: spec_fn(SliceView) -> bool,
    pred: spec_fn(RecordView) -> bool,
)
    requires
        forall|r: RecordView|
            #[trigger] pred(r) <==> seconds_used(r, since, now) > 0 && keep(
                slice_shown(r, since, now),
            ),
    ensures
        kept(slices(rs, since, now), keep).len() == rs.filter(pred).len(),
        forall|i: int|
            0 <= i < rs.filter(pred).len() ==> #[trigger] kept(slices(rs, since, now), keep)[i]
                == slice_shown(rs.filter(pred)[i], since, now),
        sum_of(kept(slices(rs, since, now), keep), slice_secs()) == total_used(
            rs.filter(pred),
            since,
            now,
        ),
    decreases rs.len(),
{
    reveal(Seq::filter);
    if rs.len() > 0 {
        let b = rs.drop_last();
        let r = rs.last();
        lemma_kept_slices(b, since, now, keep, pred);
        lemma_slice_is(r, since, now);
        let sb = slices(b, since, now);
        if seconds_used(r, since, now) > 0 {
            let x = slice_shown(r, since, now);
            assert(slices(rs, since, now) == sb.push(x));
            assert(sb.push(x).drop_last() =~= sb);
            if keep(x) {
                assert(pred(r));
                assert(rs.filter(pred) == b.filter(pred).push(r));
                assert(kept(slices(rs, since, now), keep) == kept(sb, keep).push(x));
                assert(kept(sb, keep).push(x).drop_last() =~= kept(sb, keep));
                assert(b.filter(pred).push(r).drop_last() =~= b.filter(pred));
            } else {
                assert(!pred(r));
            }
        } else {
            assert(!pred(r));
        }
    }
}

/// The item has the key.
pub open spec fn has_key<T, K>(key: spec_fn(T) -> K, k: K) -> spec_fn(T) -> bool {
    |t: T| key(t) == k
}

pub proof fn lemma_members_are_kept<T, K>(s: Seq<T>, key: spec_fn(T) -> K, k: K)
    ensures
        members(s, key, k) == kept(s, has_key(key, k)),
    decreases s.len(),
{
    if s.len() > 0 {
        lemma_members_are_kept(s.drop_last(), key, k);
    }
}

pub proof fn lemma_kept_twice<T>(
    s: Seq<T>,
    a: spec_fn(T) -> bool,
    b: spec_fn(T) -> bool,
    both: spec_fn(T) -> bool,
)
    requires
        forall|t: T| #[trigger] both(t) <==> a(t) && b(t),
    ensures
        kept(kept(s, a), b) == kept(s, both),
    decreases s.len(),
{
    if s.len() > 0 {
        lemma_kept_twice(s.drop_last(), a, b, both);
        let t = s.last();
        assert(both(t) <==> a(t) && b(t));
        if a(t) {
            assert(kept(s.drop_last(), a).push(t).drop_last() =~= kept(s.drop_last(), a));
        }
    }
}

pub proof fn lemma_earliest<T>(s: Seq<T>, at: spec_fn(T) -> Timestamp)
    requires
        s.len() > 0,
    ensures
        exists|i: int| 0 <= i < s.len() && at(#[trigger] s[i]) == earliest(s, at),
        forall|i: int| 0 <= i < s.len() ==> !at(#[trigger] s[i]).before(earliest(s, at)),
    decreases s.len(),
{
    if s.len() == 1 {
        assert(at(s[0]) == earliest(s, at));
        law_instants_are_ordered(at(s[0]), at(s[0]), at(s[0]));
    } else {
        let b = s.drop_last();
        lemma_earliest(b, at);
        let x = earliest(b, at);
        let y = at(s.last());
        law_instants_are_ordered(x, y, y);
        let j = choose|j: int| 0 <= j < b.len() && at(#[trigger] b[j]) == x;
        assert(at(s[if y.before(x) {
            s.len() - 1
        } else {
            j
        }]) == earliest(s, at)) by {
            assert(s[j] == b[j]);
        }
        assert forall|i: int| 0 <= i < s.len() implies !at(#[trigger] s[i]).before(
            earliest(s, at),
        ) by {
            if i < b.len() {
                assert(s[i] == b[i]);
                law_instants_are_ordered(at(s[i]), earliest(s, at), x);
                law_instants_are_ordered(at(s[i]), y, x);
            }
            law_instants_are_ordered(y, x, y);
        }
    }
}

pub proof fn lemma_latest<T>(s: Seq<T>, at: spec_fn(T) -> Timestamp)
    requires
        s.len() > 0,
    ensures
        exists|i: int| 0 <= i < s.len() && at(#[trigger] s[i]) == latest(s, at),
        forall|i: int| 0 <= i < s.len() ==> !latest(s, at).before(at(#[trigger] s[i])),
    decreases s.len(),
{
    if s.len() == 1 {
        assert(at(s[0]) == latest(s, at));
        law_instants_are_ordered(at(s[0]), at(s[0]), at(s[0]));
    } else {
        let b = s.drop_last();
        lemma_latest(b, at);
        let x = latest(b, at);
        let y = at(s.last());
        law_instants_are_ordered(x, y, y);
        let j = choose|j: int| 0 <= j < b.len() && at(#[trigger] b[j]) == x;
        assert(at(s[if x.before(y) {
            s.len() - 1
        } else {
            j
        }]) == latest(s, at)) by {
            assert(s[j] == b[j]);
        }
        assert forall|i: int| 0 <= i < s.len() implies !latest(s, at).before(
            at(#[trigger] s[i]),
        ) by {
            if i < b.len() {
                assert(s[i] == b[i]);
                law_instants_are_ordered(x, y, at(s[i]));
                law_instants_are_ordered(y, at(s[i]), x);
            }
            law_instants_are_ordered(y, x, y);
        }
    }
}

/// Slices that come one by one from records start and end as those do.
proof fn lemma_bounds(
    ss: Seq<SliceView>,
    rs: Seq<RecordView>,
    since: Timestamp,
    now: Timestamp,
)
    requires
        rs.len() > 0,
        ss.len() == rs.len(),
        forall|i: int| 0 <= i < rs.len() ==> #[trigger] ss[i] == slice_shown(rs[i], since, now),
    ensures
        first_used(rs, since, earliest(ss, slice_start())),
        last_used(rs, now, latest(ss, slice_end())),
{
    lemma_earliest(ss, slice_start());
    lemma_latest(ss, slice_end());
    let a = choose|i: int|
        0 <= i < ss.len() && slice_start()(#[trigger] ss[i]) == earliest(ss, slice_start());
    let b = choose|i: int|
        0 <= i < ss.len() && slice_end()(#[trigger] ss[i]) == latest(ss, slice_end());
    assert(used_from(rs[a], since) == earliest(ss, slice_start()));
    assert(used_until(rs[b], now) == latest(ss, slice_end()));
    assert forall|i: int| 0 <= i < rs.len() implies !used_from(#[trigger] rs[i], since).before(
        earliest(ss, slice_start()),
    ) by {
        assert(!slice_start()(ss[i]).before(earliest(ss, slice_start())));
    }
    assert forall|i: int| 0 <= i < rs.len() implies !latest(ss, slice_end()).before(
        used_until(#[trigger] rs[i], now),
    ) by {
        assert(!latest(ss, slice_end()).before(slice_end()(ss[i])));
    }
}

/// The slices of a process come one by one from the records that show its use.
proof fn lemma_process_slices(
    rs: Seq<RecordView>,
    since: Timestamp,
    now: Timestamp,
    pid: i32,
    start: u64,
)
    ensures
        ({
            let ms = members(slices(rs, since, now), app_key(), (pid, start));
            let cs = rs.filter(uses_process(since, now, pid, start));
            &&& ms.len() == cs.len()
            &&& forall|i: int|
                0 <= i < cs.len() ==> #[trigger] ms[i] == slice_shown(cs[i], since, now)
            &&& sum_of(ms, slice_secs()) == total_used(cs, since, now)
        }),
{
    let k = (pid, start);
    let keep = has_key(app_key(), k);
    lemma_members_are_kept(slices(rs, since, now), app_key(), k);
    lemma_kept_slices(rs, since, now, keep, uses_process(since, now, pid, start));
}

/// The slices of a window come one by one from the records that show its use.
proof fn lemma_window_slices(
    rs: Seq<RecordView>,
    since: Timestamp,
    now: Timestamp,
    pid: i32,
    start: u64,
    id: u32,
)
    ensures
        ({
            let ms = members(
                kept(members(slices(rs, since, now), app_key(), (pid, start)), has_window()),
                window_key(),
                id,
            );
            let cs = rs.filter(uses_window(since, now, pid, start, id));
            &&& ms.len() == cs.len()
            &&& forall|i: int|
                0 <= i < cs.len() ==> #[trigger] ms[i] == slice_shown(cs[i], since, now)
            &&& sum_of(ms, slice_secs()) == total_used(cs, since, now)
        }),
{
    let k = (pid, start);
    let all = slices(rs, since, now);
    let of_app = has_key(app_key(), k);
    let of_window = has_key(window_key(), id);
    let titled = |t: SliceView| of_app(t) && has_window()(t);
    let both = |t: SliceView| titled(t) && of_window(t);
    lemma_members_are_kept(all, app_key(), k);
    lemma_kept_twice(all, of_app, has_window(), titled);
    lemma_members_are_kept(kept(all, titled), window_key(), id);
    lemma_kept_twice(all, titled, of_window, both);
    lemma_kept_slices(rs, since, now, both, uses_window(since, now, pid, start, id));
}

/// What is reported of a process comes from the slices of that process.
proof fn lemma_reported(
    rs: Seq<RecordView>,
    since: Timestamp,
    now: Timestamp,
    limit: int,
    min: int,
    max: int,
    i: int,
)
    requires
        0 <= i < aggregated(rs, since, now, limit, min, max).len(),
    ensures
        ({
            let a = aggregated(rs, since, now, limit, min, max)[i];
            let ms = members(
                slices(rs, since, now),
                app_key(),
                (a.pid, a.process_start_time),
            );
            &&& ms.len() > 0
            &&& a == regrouped(app_of(ms), limit, min, max)
        }),
{
    let ss = slices(rs, since, now);
    let apps = apps_of(ss);
    let made = apps.map_values(|a: AppView| regrouped(a, limit, min, max));
    let sorted = by_recency(made, app_seen());
    law_by_recency_sorts(made, app_seen());
    lemma_same_items(sorted, made, sorted[i]);
    let j = choose|j: int| 0 <= j < made.len() && made[j] == sorted[i];
    let ks = keys_of(ss, app_key());
    assert(ks.contains(ks[j]));
    lemma_members(ss, app_key(), ks[j]);
    let ms = members(ss, app_key(), ks[j]);
    assert(apps[j] == app_of(ms));
    assert(app_key()(ms[0]) == ks[j]);
}

pub proof fn lemma_same_items<T>(a: Seq<T>, b: Seq<T>, t: T)
    requires
        a.to_multiset() == b.to_multiset(),
        a.contains(t),
    ensures
        b.contains(t),
{
    broadcast use vstd::seq_lib::group_to_multiset_ensures;

    assert(a.to_multiset().count(t) > 0);
    assert(b.to_multiset().count(t) > 0);
}

/// The use of a process is what the records show of it, in whatever state they are: it was in use
/// for exactly as many seconds as those records last in the period, from the first of them to the
/// last, and has the name that the first of them gives it.
pub proof fn law_use_of_a_process_is_recorded(
    rs: Seq<RecordView>,
    since: Timestamp,
    now: Timestamp,
    limit: int,
    min: int,
    max: int,
    i: int,
)
    requires
        0 <= i < aggregated(rs, since, now, limit, min, max).len(),
    ensures
        ({
            let a = aggregated(rs, since, now, limit, min, max)[i];
            let shown = rs.filter(uses_process(since, now, a.pid, a.process_start_time));
            &&& shown.len() > 0
            &&& a.total_duration_seconds == total_used(shown, since, now)
            &&& a.total_duration_seconds > 0
            &&& a.app_name == shown[0].focus_info->0.app_name
            &&& first_used(shown, since, a.first_seen)
            &&& last_used(shown, now, a.last_seen)
        }),
{
    lemma_reported(rs, since, now, limit, min, max, i);
    let a = aggregated(rs, since, now, limit, min, max)[i];
    let pred = uses_process(since, now, a.pid, a.process_start_time);
    let shown = rs.filter(pred);
    lemma_process_slices(rs, since, now, a.pid, a.process_start_time);
    let ms = members(slices(rs, since, now), app_key(), (a.pid, a.process_start_time));
    lemma_bounds(ms, shown, since, now);
    assert(ms[0] == slice_shown(shown[0], since, now));
    assert forall|j: int| 0 <= j < shown.len() implies seconds_used(
        #[trigger] shown[j],
        since,
        now,
    ) > 0 by {
        rs.lemma_filter_pred(pred, j);
        assert(pred(shown[j]));
    }
    lemma_some_use(shown, since, now);
}

proof fn lemma_some_use(rs: Seq<RecordView>, since: Timestamp, now: Timestamp)
    requires
        forall|j: int| 0 <= j < rs.len() ==> seconds_used(#[trigger] rs[j], since, now) > 0,
    ensures
        total_used(rs, since, now) >= rs.len(),
    decreases rs.len(),
{
    if rs.len() > 0 {
        let b = rs.drop_last();
        assert(forall|j: int| 0 <= j < b.len() ==> b[j] == rs[j]);
        lemma_some_use(b, since, now);
        assert(seconds_used(rs[rs.len() - 1], since, now) > 0);
    }
}

/// No use is missed: the process of every record that shows at least a second of use in the period
/// is reported, and only once.
pub proof fn law_no_process_is_missed(
    rs: Seq<RecordView>,
    since: Timestamp,
    now: Timestamp,
    limit: int,
    min: int,
    max: int,
    j: int,
)
    requires
        0 <= j < rs.len(),
        seconds_used(rs[j], since, now) > 0,
    ensures
        exists|i: int|
            0 <= i < aggregated(rs, since, now, limit, min, max).len() && (#[trigger] aggregated(
                rs,
                since,
                now,
                limit,
                min,
                max,
            )[i]).pid == rs[j].focus_info->0.pid && aggregated(
                rs,
                since,
                now,
                limit,
                min,
                max,
            )[i].process_start_time == rs[j].focus_info->0.process_start_time,
{
    let f = rs[j].focus_info->0;
    let k = (f.pid, f.process_start_time);
    let ss = slices(rs, since, now);
    let pred = uses_process(since, now, f.pid, f.process_start_time);
    lemma_process_slices(rs, since, now, f.pid, f.process_start_time);
    assert(pred(rs[j]));
    rs.lemma_filter_contains(pred, j);
    assert(rs.filter(pred).len() > 0);
    lemma_members(ss, app_key(), k);
    let ks = keys_of(ss, app_key());
    let m = choose|m: int| 0 <= m < ks.len() && ks[m] == k;
    let made = apps_of(ss).map_values(|a: AppView| regrouped(a, limit, min, max));
    let sorted = by_recency(made, app_seen());
    law_by_recency_sorts(made, app_seen());
    assert(made.contains(made[m]));
    lemma_same_items(made, sorted, made[m]);
    let i = choose|i: int| 0 <= i < sorted.len() && sorted[i] == made[m];
    assert(app_key()(members(ss, app_key(), k)[0]) == k);
    assert(aggregated(rs, since, now, limit, min, max)[i].pid == f.pid);
}

spec fn app_id() -> spec_fn(AppView) -> (i32, u64) {
    |a: AppView| (a.pid, a.process_start_time)
}

pub proof fn lemma_recency_apart<T, K>(
    s: Seq<T>,
    seen: spec_fn(T) -> Timestamp,
    key: spec_fn(T) -> K,
)
    requires
        forall|i: int, j: int|
            0 <= i < j < s.len() ==> key(#[trigger] s[i]) != key(#[trigger] s[j]),
    ensures
        forall|i: int, j: int|
            0 <= i < j < s.len() ==> key(#[trigger] by_recency(s, seen)[i]) != key(
                #[trigger] by_recency(s, seen)[j],
            ),
    decreases s.len(),
{
    if s.len() > 0 {
        let tail = s.drop_first();
        assert forall|i: int, j: int| 0 <= i < j < tail.len() implies key(#[trigger] tail[i])
            != key(#[trigger] tail[j]) by {
            assert(tail[i] == s[i + 1] && tail[j] == s[j + 1]);
        }
        lemma_recency_apart(tail, seen, key);
        law_by_recency_sorts(tail, seen);
        let rest = by_recency(tail, seen);
        lemma_slot(rest, seen, seen(s[0]));
        let n = slot(rest, seen, seen(s[0]));
        let r = rest.insert(n, s[0]);
        assert forall|a: int| 0 <= a < rest.len() implies key(#[trigger] rest[a]) != key(s[0]) by {
            assert(rest.contains(rest[a]));
            lemma_same_items(rest, tail, rest[a]);
            let b = choose|b: int| 0 <= b < tail.len() && tail[b] == rest[a];
            assert(s[b + 1] == tail[b]);
            assert(key(s[0]) != key(s[b + 1]));
        }
        assert forall|i: int, j: int| 0 <= i < j < r.len() implies key(#[trigger] r[i]) != key(
            #[trigger] r[j],
        ) by {
            let a = if i < n {
                i
            } else {
                i - 1
            };
            let b = if j < n {
                j
            } else {
                j - 1
            };
            if i == n {
                assert(r[j] == rest[b]);
            } else if j == n {
                assert(r[i] == rest[a]);
            } else {
                assert(r[i] == rest[a] && r[j] == rest[b]);
            }
        }
    }
}

/// Processes are reported once each, from the one used last to the one used first.
pub proof fn law_processes_come_by_recency(
    rs: Seq<RecordView>,
    since: Timestamp,
    now: Timestamp,
    limit: int,
    min: int,
    max: int,
    i: int,
    j: int,
)
    requires
        0 <= i < j < aggregated(rs, since, now, limit, min, max).len(),
    ensures
        ({
            let a = aggregated(rs, since, now, limit, min, max)[i];
            let b = aggregated(rs, since, now, limit, min, max)[j];
            &&& a.pid != b.pid || a.process_start_time != b.process_start_time
            &&& !a.last_seen.before(b.last_seen)
        }),
{
    let ss = slices(rs, since, now);
    let apps = apps_of(ss);
    let made = apps.map_values(|a: AppView| regrouped(a, limit, min, max));
    law_by_recency_sorts(made, app_seen());
    assert forall|x: int, y: int| 0 <= x < y < made.len() implies app_id()(#[trigger] made[x])
        != app_id()(#[trigger] made[y]) by {
        law_each_app_appears_once(ss, x, y);
        assert(made[x].pid == apps[x].pid && made[y].pid == apps[y].pid);
    }
    lemma_recency_apart(made, app_seen(), app_id());
    let sorted = by_recency(made, app_seen());
    assert(app_id()(sorted[i]) != app_id()(sorted[j]));
    assert(!app_seen()(sorted[i]).before(app_seen()(sorted[j])));
}

pub proof fn lemma_sum_insert<T>(s: Seq<T>, n: int, t: T, amount: spec_fn(T) -> int)
    requires
        0 <= n <= s.len(),
    ensures
        sum_of(s.insert(n, t), amount) == sum_of(s, amount) + amount(t),
    decreases s.len(),
{
    let r = s.insert(n, t);
    if n == s.len() {
        assert(r.drop_last() =~= s);
    } else {
        assert(r.drop_last() =~= s.drop_last().insert(n, t));
        lemma_sum_insert(s.drop_last(), n, t, amount);
    }
}

/// Sorting keeps the sum.
pub proof fn lemma_recency_sum<T>(
    s: Seq<T>,
    seen: spec_fn(T) -> Timestamp,
    amount: spec_fn(T) -> int,
)
    ensures
        sum_of(by_recency(s, seen), amount) == sum_of(s, amount),
    decreases s.len(),
{
    if s.len() > 0 {
        let tail = s.drop_first();
        let rest = by_recency(tail, seen);
        lemma_recency_sum(tail, seen, amount);
        lemma_slot(rest, seen, seen(s[0]));
        lemma_sum_insert(rest, slot(rest, seen, seen(s[0])), s[0], amount);
        lemma_sum_insert(tail, 0, s[0], amount);
        assert(tail.insert(0, s[0]) =~= s);
    }
}

/// The seconds reported of all processes.
pub open spec fn total_reported(apps: Seq<AppView>) -> int
    decreases apps.len(),
{
    if apps.len() == 0 {
        0
    } else {
        total_reported(apps.drop_last()) + apps.last().total_duration_seconds
    }
}

proof fn lemma_total_reported(apps: Seq<AppView>)
    ensures
        total_reported(apps) == sum_of(apps, app_secs()),
    decreases apps.len(),
{
    if apps.len() > 0 {
        lemma_total_reported(apps.drop_last());
    }
}

proof fn lemma_sum_map<T>(a: Seq<T>, b: Seq<T>, amount: spec_fn(T) -> int)
    requires
        a.len() == b.len(),
        forall|i: int| 0 <= i < a.len() ==> amount(#[trigger] a[i]) == amount(b[i]),
    ensures
        sum_of(a, amount) == sum_of(b, amount),
    decreases a.len(),
{
    if a.len() > 0 {
        let x = a.drop_last();
        let y = b.drop_last();
        assert forall|i: int| 0 <= i < x.len() implies amount(#[trigger] x[i]) == amount(
            y[i],
        ) by {
            assert(x[i] == a[i] && y[i] == b[i]);
        }
        lemma_sum_map(x, y, amount);
        assert(amount(a[a.len() - 1]) == amount(b[b.len() - 1]));
    }
}

proof fn lemma_total_shown(rs: Seq<RecordView>, since: Timestamp, now: Timestamp)
    ensures
        sum_of(slices(rs, since, now), slice_secs()) == total_used(rs, since, now),
    decreases rs.len(),
{
    if rs.len() > 0 {
        let b = rs.drop_last();
        lemma_total_shown(b, since, now);
        lemma_slice_is(rs.last(), since, now);
        let sb = slices(b, since, now);
        if seconds_used(rs.last(), since, now) > 0 {
            let x = slice_shown(rs.last(), since, now);
            assert(slices(rs, since, now) == sb.push(x));
            assert(sb.push(x).drop_last() =~= sb);
        }
    }
}

/// No second is lost and none is counted twice: the seconds reported of all processes are the
/// seconds that all records with a focus last in the period.
pub proof fn law_all_use_is_reported(
    rs: Seq<RecordView>,
    since: Timestamp,
    now: Timestamp,
    limit: int,
    min: int,
    max: int,
)
    ensures
        total_reported(aggregated(rs, since, now, limit, min, max)) == total_used(rs, since, now),
{
    let ss = slices(rs, since, now);
    let apps = apps_of(ss);
    let made = apps.map_values(|a: AppView| regrouped(a, limit, min, max));
    lemma_total_reported(aggregated(rs, since, now, limit, min, max));
    lemma_recency_sum(made, app_seen(), app_secs());
    lemma_sum_map(made, apps, app_secs());
    law_apps_share_out_the_time(ss);
    lemma_total_shown(rs, since, now);
}

/// What is reported depends on the focus and the times of the records alone: neither their state
/// nor their numbers nor what triggered them matter.
pub proof fn law_use_is_told_by_focus_and_time(
    a: Seq<RecordView>,
    b: Seq<RecordView>,
    since: Timestamp,
    now: Timestamp,
    limit: int,
    min: int,
    max: int,
)
    requires
        a.len() == b.len(),
        forall|i: int|
            0 <= i < a.len() ==> (#[trigger] a[i]).start_time == b[i].start_time && a[i].end_time
                == b[i].end_time && a[i].focus_info == b[i].focus_info,
    ensures
        aggregated(a, since, now, limit, min, max) == aggregated(b, since, now, limit, min, max),
{
    lemma_same_slices(a, b, since, now);
}

proof fn lemma_same_slices(
    a: Seq<RecordView>,
    b: Seq<RecordView>,
    since: Timestamp,
    now: Timestamp,
)
    requires
        a.len() == b.len(),
        forall|i: int|
            0 <= i < a.len() ==> (#[trigger] a[i]).start_time == b[i].start_time && a[i].end_time
                == b[i].end_time && a[i].focus_info == b[i].focus_info,
    ensures
        slices(a, since, now) == slices(b, since, now),
    decreases a.len(),
{
    if a.len() > 0 {
        let x = a.drop_last();
        let y = b.drop_last();
        assert forall|i: int| 0 <= i < x.len() implies (#[trigger] x[i]).start_time
            == y[i].start_time && x[i].end_time == y[i].end_time && x[i].focus_info
            == y[i].focus_info by {
            assert(x[i] == a[i] && y[i] == b[i]);
        }
        lemma_same_slices(x, y, since, now);
        let n = a.len() - 1;
        assert(a[n].start_time == b[n].start_time);
    }
}

/// A window before it is sorted into a group is what the records show of it.
pub open spec fn shows_window(
    w: WindowView,
    shown: Seq<RecordView>,
    since: Timestamp,
    now: Timestamp,
) -> bool {
    &&& shown.len() > 0
    &&& w.duration_seconds == total_used(shown, since, now)
    &&& w.record_count == shown.len()
    &&& w.window_title == shown.last().focus_info->0.window_title
    &&& first_used(shown, since, w.first_seen)
    &&& last_used(shown, now, w.last_seen)
}

proof fn lemma_windows_shown(
    rs: Seq<RecordView>,
    since: Timestamp,
    now: Timestamp,
    pid: i32,
    start: u64,
    i: int,
)
    requires
        ({
            let ms = members(slices(rs, since, now), app_key(), (pid, start));
            0 <= i < windows_of(ms).len()
        }),
    ensures
        ({
            let ms = members(slices(rs, since, now), app_key(), (pid, start));
            let w = windows_of(ms)[i];
            shows_window(
                w,
                rs.filter(uses_window(since, now, pid, start, w.window_id)),
                since,
                now,
            )
        }),
{
    let ms = members(slices(rs, since, now), app_key(), (pid, start));
    let ts = kept(ms, has_window());
    let ids = keys_of(ts, window_key());
    let id = ids[i];
    let ws = members(ts, window_key(), id);
    assert(ids.contains(id));
    lemma_members(ts, window_key(), id);
    let w = windows_of(ms)[i];
    assert(w == window_of(ws));
    assert(window_key()(ws[0]) == id);
    assert(w.window_id == id);
    let shown = rs.filter(uses_window(since, now, pid, start, id));
    lemma_window_slices(rs, since, now, pid, start, id);
    lemma_bounds(ws, shown, since, now);
    assert(ws[ws.len() - 1] == slice_shown(shown[shown.len() - 1], since, now));
}

proof fn lemma_listed(
    ms: Seq<SliceView>,
    limit: int,
    min: int,
    max: int,
    w: WindowView,
)
    requires
        regrouped(app_of(ms), limit, min, max).windows.contains(w),
    ensures
        windows_of(ms).contains(w),
{
    let all = windows_of(ms);
    let ks = all_keyed(all);
    let left = ungrouped(ks, limit, min);
    let only = windows_only(left);
    let shown = most_recent(only, max);
    law_by_recency_sorts(only, window_seen());
    let i = choose|i: int| 0 <= i < shown.len() && shown[i] == w;
    if max > 0 && only.len() > max {
        let sorted = by_recency(only, window_seen());
        assert(sorted[i] == w);
        assert(sorted.contains(w));
        lemma_same_items(sorted, only, w);
    }
    assert(only.contains(w));
    let m = choose|m: int| 0 <= m < only.len() && only[m] == w;
    assert(left[m].window == w);
    let rest = crate::window_groups::lasting(ks, limit, min);
    let ts = crate::window_groups::temporal_groups(rest);
    lemma_kept(rest, crate::window_groups::not_temporal(ts));
    assert(rest.contains(left[m]));
    let a = choose|a: int| 0 <= a < rest.len() && rest[a] == left[m];
    lemma_kept(
        ks,
        crate::window_groups::not_ephemeral(
            crate::window_groups::ephemeral_groups(ks, limit, min),
        ),
    );
    assert(ks.contains(rest[a]));
    let b = choose|b: int| 0 <= b < ks.len() && ks[b] == rest[a];
    assert(all[b] == w);
}

/// Each window listed by itself is what the records show of it: in use for exactly as many seconds
/// as those records last in the period, with the title that the last of them gives it.
pub proof fn law_use_of_a_window_is_recorded(
    rs: Seq<RecordView>,
    since: Timestamp,
    now: Timestamp,
    limit: int,
    min: int,
    max: int,
    i: int,
    j: int,
)
    requires
        0 <= i < aggregated(rs, since, now, limit, min, max).len(),
        0 <= j < aggregated(rs, since, now, limit, min, max)[i].windows.len(),
    ensures
        ({
            let a = aggregated(rs, since, now, limit, min, max)[i];
            let w = a.windows[j];
            shows_window(
                w,
                rs.filter(uses_window(since, now, a.pid, a.process_start_time, w.window_id)),
                since,
                now,
            )
        }),
{
    lemma_reported(rs, since, now, limit, min, max, i);
    let a = aggregated(rs, since, now, limit, min, max)[i];
    let w = a.windows[j];
    let ms = members(slices(rs, since, now), app_key(), (a.pid, a.process_start_time));
    assert(a.windows.contains(w));
    lemma_listed(ms, limit, min, max, w);
    let all = windows_of(ms);
    let m = choose|m: int| 0 <= m < all.len() && all[m] == w;
    lemma_windows_shown(rs, since, now, a.pid, a.process_start_time, m);
}

/// The windows are all those with a title and a number that the records show use of, each once, and
/// each is what the records show of it.
pub open spec fn shows_windows(
    ws: Seq<WindowView>,
    rs: Seq<RecordView>,
    since: Timestamp,
    now: Timestamp,
    pid: i32,
    start: u64,
) -> bool {
    &&& ids_differ(ws)
    &&& forall|i: int|
        0 <= i < ws.len() ==> shows_window(
            #[trigger] ws[i],
            rs.filter(uses_window(since, now, pid, start, ws[i].window_id)),
            since,
            now,
        )
    &&& forall|j: int|
        0 <= j < rs.len() && uses_window(since, now, pid, start, rs[j].focus_info->0.window_id)(
            #[trigger] rs[j],
        ) ==> has_window_id(ws, rs[j].focus_info->0.window_id)
}

/// No window is missed and none is made up: what is reported of a process is what the rules for
/// groups make of all windows of the process that the records show use of.
pub proof fn law_windows_are_recorded_and_sorted_out(
    rs: Seq<RecordView>,
    since: Timestamp,
    now: Timestamp,
    limit: int,
    min: int,
    max: int,
    i: int,
)
    requires
        0 <= i < aggregated(rs, since, now, limit, min, max).len(),
    ensures
        ({
            let a = aggregated(rs, since, now, limit, min, max)[i];
            exists|ws: Seq<WindowView>| #[trigger]
                shows_windows(ws, rs, since, now, a.pid, a.process_start_time) && sorted_out(
                    a,
                    ws,
                    limit,
                    min,
                    max,
                )
        }),
{
    lemma_reported(rs, since, now, limit, min, max, i);
    let a = aggregated(rs, since, now, limit, min, max)[i];
    let (pid, start) = (a.pid, a.process_start_time);
    let ms = members(slices(rs, since, now), app_key(), (pid, start));
    let ws = windows_of(ms);
    lemma_process_slices(rs, since, now, pid, start);
    let shown = rs.filter(uses_process(since, now, pid, start));
    assert forall|k: int| 0 <= k < ms.len() implies (#[trigger] ms[k]).secs >= 0 by {
        lemma_slice_is(shown[k], since, now);
    }
    law_windows_of_an_app(ms);
    assert(ids_differ(ws));
    assert forall|k: int| 0 <= k < ws.len() implies shows_window(
        #[trigger] ws[k],
        rs.filter(uses_window(since, now, pid, start, ws[k].window_id)),
        since,
        now,
    ) by {
        lemma_windows_shown(rs, since, now, pid, start, k);
    }
    assert forall|j: int|
        0 <= j < rs.len() && uses_window(since, now, pid, start, rs[j].focus_info->0.window_id)(
            #[trigger] rs[j],
        ) implies has_window_id(ws, rs[j].focus_info->0.window_id) by {
        let id = rs[j].focus_info->0.window_id;
        let pred = uses_window(since, now, pid, start, id);
        rs.lemma_filter_contains(pred, j);
        assert(rs.filter(pred).len() > 0);
        lemma_window_slices(rs, since, now, pid, start, id);
        let ts = kept(ms, has_window());
        lemma_members(ts, window_key(), id);
        let ids = keys_of(ts, window_key());
        assert(ids.contains(id));
        let k = choose|k: int| 0 <= k < ids.len() && ids[k] == id;
        assert(ws[k] == window_of(members(ts, window_key(), id)));
        assert(window_key()(members(ts, window_key(), id)[0]) == id);
        assert(ws[k].window_id == id);
    }
    law_windows_are_sorted_out(app_of(ms), limit, min, max);
    assert(shows_windows(ws, rs, since, now, pid, start));
}

} // verus!
