//! By what rules the windows of a process are sorted into groups: short-lived windows by their
//! title, the others by their title and by when they were last seen.

use crate::aggregate::{
    all_keyed, keyed, regrouped, AppView, EphemeralView, TemporalView, WindowView,
};
use crate::grouping::{
    by_recency, distinct, earliest, kept, keys_of, latest, law_by_recency_sorts, lemma_distinct,
    lemma_kept, lemma_kept_distinct, lemma_members, max_of, members, sum_of,
};
use crate::text::{lowercased, trimmed};
use crate::time::{law_instants_are_ordered, law_time_is_a_line, Timestamp};
use crate::use_totals::{
    lemma_earliest, lemma_latest, lemma_recency_apart, lemma_same_items, lemma_sum_insert,
};
use crate::window_groups::{
    clusters, ephemeral_groups, ephemeral_of, in_ephemeral, in_temporal, is_large, is_short,
    key_of, keyed_first, keyed_id, keyed_last, keyed_secs, lasting, most_recent, near,
    not_ephemeral, not_temporal, shared, staged, temporal_groups, temporal_of, temporal_of_title,
    temporal_of_titles, ungrouped, window_first, window_id, window_secs, window_seen,
    windows_only, KeyedView,
};
use crate::window_places::{has_window_id, ids_differ};
use vstd::prelude::*;

verus! {

/// What the titles of windows are compared by: the title without the white space around it, in
/// lower case.
pub open spec fn compared_title(w: WindowView) -> Seq<char> {
    lowercased(trimmed(w.window_title))
}

/// The window has the title and was in use for less than `limit` seconds.
pub open spec fn brief(limit: int, title: Seq<char>) -> spec_fn(WindowView) -> bool {
    |w: WindowView| w.duration_seconds < limit && compared_title(w) == title
}

/// The window is one of those with the given numbers.
pub open spec fn numbered_in(ids: Seq<u32>) -> spec_fn(WindowView) -> bool {
    |w: WindowView| ids.contains(w.window_id)
}

/// The window is in none of the groups of short-lived windows.
pub open spec fn not_brief(groups: Seq<EphemeralView>) -> spec_fn(WindowView) -> bool {
    |w: WindowView|
        forall|g: int|
            0 <= g < groups.len() ==> !(#[trigger] groups[g]).distinct_ids.contains(w.window_id)
}

/// The window is in none of the groups of windows in use around the same time.
pub open spec fn not_together(groups: Seq<TemporalView>) -> spec_fn(WindowView) -> bool {
    |w: WindowView|
        forall|g: int|
            0 <= g < groups.len() ==> !(#[trigger] groups[g]).distinct_ids.contains(w.window_id)
}

/// How many seconds the windows were in use together.
pub open spec fn time_in(ws: Seq<WindowView>) -> int
    decreases ws.len(),
{
    if ws.len() == 0 {
        0
    } else {
        time_in(ws.drop_last()) + ws.last().duration_seconds
    }
}

/// One of the windows was first seen at `t`, and none before.
pub open spec fn first_seen_at(ws: Seq<WindowView>, t: Timestamp) -> bool {
    &&& exists|i: int| 0 <= i < ws.len() && (#[trigger] ws[i]).first_seen == t
    &&& forall|i: int| 0 <= i < ws.len() ==> !(#[trigger] ws[i]).first_seen.before(t)
}

/// One of the windows was last seen at `t`, and none later.
pub open spec fn last_seen_at(ws: Seq<WindowView>, t: Timestamp) -> bool {
    &&& exists|i: int| 0 <= i < ws.len() && (#[trigger] ws[i]).last_seen == t
    &&& forall|i: int| 0 <= i < ws.len() ==> !t.before((#[trigger] ws[i]).last_seen)
}

/// The group is that of the short-lived windows with its title: there are enough of them, all of
/// them are in it and no other window is, and it sums them up.
pub open spec fn groups_brief(
    g: EphemeralView,
    ws: Seq<WindowView>,
    limit: int,
    min: int,
) -> bool {
    let ms = ws.filter(brief(limit, g.title_key));
    &&& ms.len() > 0
    &&& ms.len() >= min
    &&& g.distinct_ids.len() == ms.len()
    &&& forall|id: u32| #[trigger] g.distinct_ids.contains(id) <==> has_window_id(ms, id)
    &&& g.occurrence_count == ms.len()
    &&& g.total_duration_seconds == time_in(ms)
    &&& first_seen_at(ms, g.first_seen)
    &&& last_seen_at(ms, g.last_seen)
}

spec fn brief_keyed(limit: int, title: Seq<char>) -> spec_fn(KeyedView) -> bool {
    |w: KeyedView| w.window.duration_seconds < limit && w.key == title
}

spec fn with_title(title: Seq<char>) -> spec_fn(KeyedView) -> bool {
    |w: KeyedView| w.key == title
}

/// Keeping keyed windows keeps windows.
proof fn lemma_kept_windows(
    ws: Seq<WindowView>,
    keep: spec_fn(KeyedView) -> bool,
    pred: spec_fn(WindowView) -> bool,
)
    requires
        forall|w: WindowView| #[trigger] pred(w) == keep(keyed(w)),
    ensures
        kept(all_keyed(ws), keep) == all_keyed(ws.filter(pred)),
    decreases ws.len(),
{
    reveal(Seq::filter);
    if ws.len() > 0 {
        let b = ws.drop_last();
        let w = ws.last();
        lemma_kept_windows(b, keep, pred);
        assert(all_keyed(ws).drop_last() =~= all_keyed(b));
        assert(all_keyed(ws).last() == keyed(w));
        assert(pred(w) == keep(keyed(w)));
        if pred(w) {
            assert(all_keyed(b.filter(pred).push(w)) =~= all_keyed(b.filter(pred)).push(keyed(w)));
        }
        assert(kept(all_keyed(ws), keep) =~= all_keyed(ws.filter(pred)));
    } else {
        assert(kept(all_keyed(ws), keep) =~= all_keyed(ws.filter(pred)));
    }
}

proof fn lemma_windows_only(ws: Seq<WindowView>)
    ensures
        windows_only(all_keyed(ws)) == ws,
{
    assert(windows_only(all_keyed(ws)) =~= ws);
}

proof fn lemma_titled(ms: Seq<KeyedView>, title: Seq<char>)
    ensures
        members(ms, key_of(), title) == kept(ms, with_title(title)),
    decreases ms.len(),
{
    if ms.len() > 0 {
        lemma_titled(ms.drop_last(), title);
    }
}

proof fn lemma_both(ws: Seq<KeyedView>, limit: int, title: Seq<char>)
    ensures
        kept(kept(ws, is_short(limit)), with_title(title)) == kept(ws, brief_keyed(limit, title)),
    decreases ws.len(),
{
    if ws.len() > 0 {
        let b = ws.drop_last();
        lemma_both(b, limit, title);
        let s = kept(b, is_short(limit));
        assert(s.push(ws.last()).drop_last() =~= s);
    }
}

proof fn lemma_filter_differ(ws: Seq<WindowView>, pred: spec_fn(WindowView) -> bool)
    requires
        ids_differ(ws),
    ensures
        ids_differ(ws.filter(pred)),
        forall|i: int|
            0 <= i < ws.filter(pred).len() ==> pred(#[trigger] ws.filter(pred)[i]) && ws.contains(
                ws.filter(pred)[i],
            ),
        forall|w: WindowView| ws.contains(w) && pred(w) ==> #[trigger] ws.filter(pred).contains(w),
    decreases ws.len(),
{
    reveal(Seq::filter);
    if ws.len() > 0 {
        let b = ws.drop_last();
        let w = ws.last();
        let n = ws.len() - 1;
        assert(forall|i: int| 0 <= i < b.len() ==> b[i] == ws[i]);
        lemma_filter_differ(b, pred);
        let fb = b.filter(pred);
        let f = ws.filter(pred);
        assert forall|i: int| 0 <= i < f.len() implies pred(#[trigger] f[i]) && ws.contains(
            f[i],
        ) by {
            if i < fb.len() {
                assert(f[i] == fb[i]);
                let j = choose|j: int| 0 <= j < b.len() && b[j] == fb[i];
                assert(ws[j] == f[i]);
            } else {
                assert(ws[n] == f[i]);
            }
        }
        assert forall|i: int, j: int| 0 <= i < j < f.len() implies (#[trigger] f[i]).window_id != (
        #[trigger] f[j]).window_id by {
            assert(f[i] == fb[i]);
            if j < fb.len() {
                assert(f[j] == fb[j]);
            } else {
                let a = choose|a: int| 0 <= a < b.len() && b[a] == fb[i];
                assert(ws[a].window_id != ws[n].window_id);
            }
        }
        assert forall|x: WindowView| ws.contains(x) && pred(x) implies #[trigger] f.contains(x) by {
            let j = choose|j: int| 0 <= j < ws.len() && ws[j] == x;
            if j < n {
                assert(b[j] == x);
                assert(b.contains(x));
                assert(fb.contains(x));
                let a = choose|a: int| 0 <= a < fb.len() && fb[a] == x;
                assert(f[a] == x);
            } else {
                assert(f[f.len() - 1] == x);
            }
        }
    }
}

proof fn lemma_distinct_keeps<K>(ks: Seq<K>)
    requires
        ks.no_duplicates(),
    ensures
        distinct(ks) == ks,
    decreases ks.len(),
{
    if ks.len() > 0 {
        let b = ks.drop_last();
        assert forall|i: int, j: int| 0 <= i < b.len() && 0 <= j < b.len() && i != j implies b[i]
            != b[j] by {
            assert(b[i] == ks[i] && b[j] == ks[j]);
        }
        lemma_distinct_keeps(b);
        assert(!b.contains(ks.last()));
        assert(b.push(ks.last()) =~= ks);
    } else {
        assert(distinct(ks) =~= ks);
    }
}

proof fn lemma_keyed_time(ws: Seq<WindowView>)
    ensures
        sum_of(all_keyed(ws), keyed_secs()) == time_in(ws),
        sum_of(ws, window_secs()) == time_in(ws),
    decreases ws.len(),
{
    if ws.len() > 0 {
        lemma_keyed_time(ws.drop_last());
        assert(all_keyed(ws).drop_last() =~= all_keyed(ws.drop_last()));
    }
}

/// The group of the short-lived windows that share a title.
proof fn lemma_ephemeral(ms: Seq<WindowView>)
    requires
        ms.len() > 0,
        ids_differ(ms),
    ensures
        ({
            let g = ephemeral_of(all_keyed(ms));
            &&& g.title_key == compared_title(ms[0])
            &&& g.distinct_ids.len() == ms.len()
            &&& forall|id: u32| #[trigger] g.distinct_ids.contains(id) <==> has_window_id(ms, id)
            &&& g.occurrence_count == ms.len()
            &&& g.total_duration_seconds == time_in(ms)
            &&& first_seen_at(ms, g.first_seen)
            &&& last_seen_at(ms, g.last_seen)
        }),
{
    let ks = all_keyed(ms);
    let g = ephemeral_of(ks);
    let ids = ks.map_values(keyed_id());
    assert forall|i: int, j: int| 0 <= i < ids.len() && 0 <= j < ids.len() && i != j implies ids[i]
        != ids[j] by {
        assert(ids[i] == ms[i].window_id && ids[j] == ms[j].window_id);
    }
    lemma_distinct_keeps(ids);
    lemma_keyed_time(ms);
    lemma_earliest(ks, keyed_first());
    lemma_latest(ks, keyed_last());
    assert forall|id: u32| #[trigger] g.distinct_ids.contains(id) <==> has_window_id(ms, id) by {
        if ids.contains(id) {
            let i = choose|i: int| 0 <= i < ids.len() && ids[i] == id;
            assert(ms[i].window_id == id);
        }
        if has_window_id(ms, id) {
            let i = choose|i: int| 0 <= i < ms.len() && (#[trigger] ms[i]).window_id == id;
            assert(ids[i] == id);
        }
    }
    let a = choose|i: int|
        0 <= i < ks.len() && keyed_first()(#[trigger] ks[i]) == earliest(ks, keyed_first());
    assert(ms[a].first_seen == g.first_seen);
    assert forall|i: int| 0 <= i < ms.len() implies !(#[trigger] ms[i]).first_seen.before(
        g.first_seen,
    ) by {
        assert(!keyed_first()(ks[i]).before(earliest(ks, keyed_first())));
    }
    let b = choose|i: int|
        0 <= i < ks.len() && keyed_last()(#[trigger] ks[i]) == latest(ks, keyed_last());
    assert(ms[b].last_seen == g.last_seen);
    assert forall|i: int| 0 <= i < ms.len() implies !g.last_seen.before(
        (#[trigger] ms[i]).last_seen,
    ) by {
        assert(!latest(ks, keyed_last()).before(keyed_last()(ks[i])));
    }
}

/// The staged group at a place is that of the short-lived windows with its title.
proof fn lemma_staged_group(ws: Seq<WindowView>, limit: int, g: int)
    requires
        ids_differ(ws),
        0 <= g < staged(all_keyed(ws), limit).len(),
    ensures
        ({
            let e = staged(all_keyed(ws), limit)[g];
            &&& e.title_key == keys_of(kept(all_keyed(ws), is_short(limit)), key_of())[g]
            &&& groups_brief(e, ws, limit, 0)
        }),
{
    let ks = all_keyed(ws);
    let ss = kept(ks, is_short(limit));
    let keys = keys_of(ss, key_of());
    let k = keys[g];
    assert(keys.contains(k));
    lemma_members(ss, key_of(), k);
    lemma_titled(ss, k);
    lemma_both(ks, limit, k);
    lemma_kept_windows(ws, brief_keyed(limit, k), brief(limit, k));
    let ms = ws.filter(brief(limit, k));
    assert(members(ss, key_of(), k) == all_keyed(ms));
    assert(ms.len() > 0);
    lemma_filter_differ(ws, brief(limit, k));
    lemma_ephemeral(ms);
    assert(brief(limit, k)(ms[0]));
    assert(staged(ks, limit)[g] == ephemeral_of(all_keyed(ms)));
}

/// Short-lived windows are grouped by their titles: where enough of them share one there is exactly
/// one group, with all of them and nothing else in it; where there are fewer there is none.
pub proof fn law_brief_windows_are_grouped_by_title(ws: Seq<WindowView>, limit: int, min: int)
    requires
        ids_differ(ws),
    ensures
        ({
            let groups = ephemeral_groups(all_keyed(ws), limit, min);
            &&& forall|g: int|
                0 <= g < groups.len() ==> groups_brief(#[trigger] groups[g], ws, limit, min)
            &&& forall|g: int, h: int|
                0 <= g < h < groups.len() ==> (#[trigger] groups[g]).title_key != (
                #[trigger] groups[h]).title_key
            &&& forall|i: int|
                0 <= i < ws.len() && (#[trigger] ws[i]).duration_seconds < limit && ws.filter(
                    brief(limit, compared_title(ws[i])),
                ).len() >= min ==> exists|g: int|
                    0 <= g < groups.len() && (#[trigger] groups[g]).title_key == compared_title(
                        ws[i],
                    )
        }),
{
    let ks = all_keyed(ws);
    let ss = kept(ks, is_short(limit));
    let keys = keys_of(ss, key_of());
    let all = staged(ks, limit);
    let groups = ephemeral_groups(ks, limit, min);
    let title = |g: EphemeralView| g.title_key;
    lemma_distinct(ss.map_values(key_of()));
    lemma_kept(all, is_large(min));
    lemma_kept(ks, is_short(limit));
    assert forall|g: int| 0 <= g < groups.len() implies groups_brief(
        #[trigger] groups[g],
        ws,
        limit,
        min,
    ) by {
        assert(all.contains(groups[g]) && is_large(min)(groups[g]));
        let m = choose|m: int| 0 <= m < all.len() && all[m] == groups[g];
        lemma_staged_group(ws, limit, m);
    }
    let titles = all.map_values(title);
    assert forall|g: int| 0 <= g < all.len() implies #[trigger] titles[g] == keys[g] by {
        lemma_staged_group(ws, limit, g);
    }
    assert(titles =~= keys);
    lemma_kept_distinct(all, is_large(min), title);
    assert forall|g: int, h: int| 0 <= g < h < groups.len() implies (#[trigger] groups[g]).title_key
        != (#[trigger] groups[h]).title_key by {
        assert(groups.map_values(title)[g] != groups.map_values(title)[h]);
    }
    assert forall|i: int|
        0 <= i < ws.len() && (#[trigger] ws[i]).duration_seconds < limit && ws.filter(
            brief(limit, compared_title(ws[i])),
        ).len() >= min implies exists|g: int|
        0 <= g < groups.len() && (#[trigger] groups[g]).title_key == compared_title(ws[i]) by {
        let k = compared_title(ws[i]);
        assert(ks[i] == keyed(ws[i]));
        assert(ks.contains(ks[i]) && is_short(limit)(ks[i]));
        assert(ss.contains(ks[i]));
        let a = choose|a: int| 0 <= a < ss.len() && ss[a] == ks[i];
        assert(ss.map_values(key_of())[a] == k);
        assert(ss.map_values(key_of()).contains(k));
        assert(keys.contains(k));
        let m = choose|m: int| 0 <= m < keys.len() && keys[m] == k;
        lemma_staged_group(ws, limit, m);
        assert(all.contains(all[m]) && is_large(min)(all[m]));
        assert(groups.contains(all[m]));
        let g = choose|g: int| 0 <= g < groups.len() && groups[g] == all[m];
        assert(groups[g].title_key == k);
    }
}

/// The window has the title.
pub open spec fn titled(title: Seq<char>) -> spec_fn(WindowView) -> bool {
    |w: WindowView| compared_title(w) == title
}

/// The second window was last seen no later than the first, and at most an hour before it.
pub open spec fn within_an_hour(later: WindowView, earlier: WindowView) -> bool {
    &&& !later.last_seen.before(earlier.last_seen)
    &&& later.last_seen.line() - earlier.last_seen.line() <= 3_600_000_000_000
}

/// The group holds at least two windows, which share its title, and sums them up. From each of
/// them but the latest it is at most an hour to one seen later.
pub open spec fn groups_together(g: TemporalView, ws: Seq<WindowView>) -> bool {
    let ms = ws.filter(numbered_in(g.distinct_ids));
    &&& ms.len() >= 2
    &&& g.distinct_ids.len() == ms.len()
    &&& forall|i: int| 0 <= i < ms.len() ==> compared_title(#[trigger] ms[i]) == g.title_key
    &&& g.occurrence_count == ms.len()
    &&& g.total_duration_seconds == if time_in(ms) > u64::MAX {
        u64::MAX as int
    } else {
        time_in(ms)
    }
    &&& longest(ms, g.max_duration_seconds)
    &&& first_seen_at(ms, g.first_seen)
    &&& last_seen_at(ms, g.last_seen)
    &&& g.anchor_last_seen == g.last_seen
    &&& forall|i: int| 0 <= i < ms.len() ==> #[trigger] leads_on(ms, i)
}

/// No window was in use longer than `secs` seconds, and one was in use for that long.
pub open spec fn longest(ws: Seq<WindowView>, secs: int) -> bool {
    &&& forall|i: int| 0 <= i < ws.len() ==> (#[trigger] ws[i]).duration_seconds <= secs
    &&& secs == 0 || exists|i: int| 0 <= i < ws.len() && (#[trigger] ws[i]).duration_seconds == secs
}

/// Where any window was seen later than the one at `i`, one was seen at most an hour later.
pub open spec fn leads_on(ws: Seq<WindowView>, i: int) -> bool {
    (exists|j: int| 0 <= j < ws.len() && ws[i].last_seen.before((#[trigger] ws[j]).last_seen))
        ==> exists|j: int|
        0 <= j < ws.len() && ws[i].last_seen.before((#[trigger] ws[j]).last_seen) && within_an_hour(
            ws[j],
            ws[i],
        )
}

/// No window was last seen in a leap second.
pub open spec fn plain_windows(ws: Seq<WindowView>) -> bool {
    forall|i: int| 0 <= i < ws.len() ==> (#[trigger] ws[i]).last_seen.is_plain()
}

/// From the window seen last to the one seen first.
spec fn falling(s: Seq<WindowView>) -> bool {
    forall|i: int, j: int|
        0 <= i < j < s.len() ==> !(#[trigger] s[i]).last_seen.before((#[trigger] s[j]).last_seen)
}

spec fn chained(s: Seq<WindowView>, i: int, j: int) -> bool {
    &&& 0 <= i <= j < s.len()
    &&& forall|t: int| i <= t < j ==> #[trigger] near_next(s, t)
}

spec fn near_next(s: Seq<WindowView>, t: int) -> bool {
    near(s[t], s[t + 1])
}

/// A cluster: windows from the one seen last to the one seen first, each near the next.
spec fn is_cluster(c: Seq<WindowView>, s: Seq<WindowView>) -> bool {
    &&& c.len() > 0
    &&& falling(c)
    &&& forall|t: int| 0 <= t < c.len() - 1 ==> #[trigger] near_next(c, t)
    &&& forall|t: int| 0 <= t < c.len() ==> s.contains(#[trigger] c[t])
    &&& ids_differ(c)
}

spec fn one_cluster(cs: Seq<Seq<WindowView>>, a: WindowView, b: WindowView) -> bool {
    exists|c: int| 0 <= c < cs.len() && (#[trigger] cs[c]).contains(a) && cs[c].contains(b)
}

proof fn lemma_clusters(s: Seq<WindowView>)
    requires
        falling(s),
        ids_differ(s),
    ensures
        s.len() > 0 ==> clusters(s).len() > 0 && clusters(s).last().last() == s.last(),
        forall|c: int| 0 <= c < clusters(s).len() ==> is_cluster(#[trigger] clusters(s)[c], s),
        forall|i: int| #[trigger]
            chained(s, i, s.len() - 1) ==> clusters(s).last().contains(s[i]),
        forall|i: int, j: int| #[trigger]
            chained(s, i, j) ==> one_cluster(clusters(s), s[i], s[j]),
    decreases s.len(),
{
    let cs = clusters(s);
    let n = s.len() - 1;
    if s.len() == 1 {
        assert(cs[0] == s);
        assert(s.contains(s[0]));
        assert forall|i: int, j: int| #[trigger] chained(s, i, j) implies one_cluster(
            cs,
            s[i],
            s[j],
        ) by {
            assert(cs[0].contains(s[i]));
        }
    } else if s.len() > 1 {
        let b = s.drop_last();
        let w = s.last();
        assert(forall|i: int| 0 <= i < b.len() ==> b[i] == s[i]);
        lemma_clusters(b);
        let bs = clusters(b);
        let m = bs.len() - 1;
        let joins = near(s[n - 1], w);
        let l = if joins {
            bs[m].push(w)
        } else {
            seq![w]
        };
        assert(is_cluster(bs[m], b));
        assert forall|t: int| 0 <= t < bs[m].len() implies !(#[trigger] bs[m][t]).last_seen.before(
            w.last_seen,
        ) && bs[m][t].window_id != w.window_id by {
            assert(b.contains(bs[m][t]));
            let a = choose|a: int| 0 <= a < b.len() && b[a] == bs[m][t];
            assert(!s[a].last_seen.before(s[n].last_seen));
            assert(s[a].window_id != s[n].window_id);
        }
        assert(is_cluster(l, s)) by {
            assert forall|t: int| 0 <= t < l.len() implies s.contains(#[trigger] l[t]) by {
                if joins && t < bs[m].len() {
                    assert(l[t] == bs[m][t]);
                    assert(b.contains(bs[m][t]));
                    let a = choose|a: int| 0 <= a < b.len() && b[a] == bs[m][t];
                    assert(s[a] == l[t]);
                } else {
                    assert(s[n] == l[t]);
                }
            }
            assert forall|t: int| 0 <= t < l.len() - 1 implies #[trigger] near_next(l, t) by {
                if t < bs[m].len() - 1 {
                    assert(near_next(bs[m], t));
                } else {
                    assert(bs[m].last() == b.last());
                }
            }
            assert forall|i: int, j: int| 0 <= i < j < l.len() implies !(
            #[trigger] l[i]).last_seen.before((#[trigger] l[j]).last_seen) && l[i].window_id
                != l[j].window_id by {
                assert(l[i] == bs[m][i]);
                if j < bs[m].len() {
                    assert(l[j] == bs[m][j]);
                }
            }
        }
        assert forall|c: int| 0 <= c < bs.len() implies is_cluster(#[trigger] bs[c], s) by {
            assert(is_cluster(bs[c], b));
            assert forall|t: int| 0 <= t < bs[c].len() implies s.contains(#[trigger] bs[c][t]) by {
                assert(b.contains(bs[c][t]));
                let a = choose|a: int| 0 <= a < b.len() && b[a] == bs[c][t];
                assert(s[a] == bs[c][t]);
            }
        }
        if joins {
            assert(cs =~= bs.update(m, l));
        } else {
            assert(cs =~= bs.push(l));
        }
        assert(cs.last() == l);
        assert(l[l.len() - 1] == w);
        assert forall|c: int| 0 <= c < cs.len() implies is_cluster(#[trigger] cs[c], s) by {
            if c < cs.len() - 1 {
                assert(cs[c] == bs[c]);
            }
        }
        assert forall|i: int, j: int| chained(s, i, j) && j < n implies #[trigger] chained(
            b,
            i,
            j,
        ) by {
            assert forall|t: int| i <= t < j implies #[trigger] near_next(b, t) by {
                assert(near_next(s, t));
            }
        }
        assert forall|i: int| #[trigger] chained(s, i, n) implies l.contains(s[i]) by {
            if i < n {
                assert(near_next(s, n - 1));
                assert(chained(s, i, n - 1));
                assert(chained(b, i, b.len() - 1));
                assert(bs.last().contains(b[i]));
                let t = choose|t: int| 0 <= t < bs[m].len() && bs[m][t] == b[i];
                assert(l[t] == s[i]);
            }
        }
        assert forall|i: int, j: int| #[trigger] chained(s, i, j) implies one_cluster(
            cs,
            s[i],
            s[j],
        ) by {
            if j < n {
                assert(chained(b, i, j));
                assert(one_cluster(bs, b[i], b[j]));
                let c = choose|c: int|
                    0 <= c < bs.len() && (#[trigger] bs[c]).contains(b[i]) && bs[c].contains(b[j]);
                if joins && c == m {
                    let x = choose|x: int| 0 <= x < bs[m].len() && bs[m][x] == b[i];
                    let y = choose|y: int| 0 <= y < bs[m].len() && bs[m][y] == b[j];
                    assert(l[x] == s[i] && l[y] == s[j]);
                    assert(cs[m].contains(s[i]) && cs[m].contains(s[j]));
                } else {
                    assert(cs[c] == bs[c]);
                    assert(cs[c].contains(s[i]));
                }
            } else {
                assert(l.contains(s[i]));
                assert(cs[cs.len() - 1].contains(s[i]) && cs[cs.len() - 1].contains(s[j]));
            }
        }
    }
}

proof fn lemma_shared(key: Seq<char>, cs: Seq<Seq<WindowView>>)
    ensures
        forall|g: int|
            0 <= g < shared(key, cs).len() ==> #[trigger] made_of(shared(key, cs)[g], key, cs),
        forall|c: int|
            0 <= c < cs.len() && (#[trigger] cs[c]).len() >= 2 ==> shared(key, cs).contains(
                temporal_of(key, cs[c]),
            ),
    decreases cs.len(),
{
    if cs.len() > 0 {
        let b = cs.drop_last();
        let n = cs.len() - 1;
        lemma_shared(key, b);
        let gb = shared(key, b);
        let gs = shared(key, cs);
        assert forall|g: int| 0 <= g < gs.len() implies #[trigger] made_of(gs[g], key, cs) by {
            if g < gb.len() {
                assert(made_of(gb[g], key, b));
                let c = choose|c: int|
                    0 <= c < b.len() && (#[trigger] b[c]).len() >= 2 && gb[g] == temporal_of(
                        key,
                        b[c],
                    );
                assert(cs[c] == b[c]);
            } else {
                assert(cs[n].len() >= 2);
            }
        }
        assert forall|c: int| 0 <= c < cs.len() && (#[trigger] cs[c]).len() >= 2 implies gs.contains(
            temporal_of(key, cs[c]),
        ) by {
            if c < n {
                assert(b[c] == cs[c]);
                let g = choose|g: int| 0 <= g < gb.len() && gb[g] == temporal_of(key, b[c]);
                assert(gs[g] == gb[g]);
            } else {
                assert(gs[gs.len() - 1] == temporal_of(key, cs[c]));
            }
        }
    }
}

spec fn made_of(g: TemporalView, key: Seq<char>, cs: Seq<Seq<WindowView>>) -> bool {
    exists|c: int|
        0 <= c < cs.len() && (#[trigger] cs[c]).len() >= 2 && g == temporal_of(key, cs[c])
}

proof fn lemma_titles(ws: Seq<KeyedView>, keys: Seq<Seq<char>>)
    ensures
        forall|g: int|
            0 <= g < temporal_of_titles(ws, keys).len() ==> #[trigger] made_for(
                temporal_of_titles(ws, keys)[g],
                ws,
                keys,
            ),
        forall|k: int, g: TemporalView|
            0 <= k < keys.len() && #[trigger] temporal_of_title(
                keys[k],
                members(ws, key_of(), keys[k]),
            ).contains(g) ==> temporal_of_titles(ws, keys).contains(g),
    decreases keys.len(),
{
    if keys.len() > 0 {
        let b = keys.drop_last();
        let n = keys.len() - 1;
        lemma_titles(ws, b);
        let gb = temporal_of_titles(ws, b);
        let gl = temporal_of_title(keys.last(), members(ws, key_of(), keys.last()));
        let gs = temporal_of_titles(ws, keys);
        assert(gs == gb + gl);
        assert forall|g: int| 0 <= g < gs.len() implies #[trigger] made_for(gs[g], ws, keys) by {
            if g < gb.len() {
                assert(made_for(gb[g], ws, b));
                let k = choose|k: int|
                    #![trigger b[k]]
                    0 <= k < b.len() && temporal_of_title(
                        b[k],
                        members(ws, key_of(), b[k]),
                    ).contains(gb[g]);
                assert(keys[k] == b[k]);
            } else {
                assert(gl[g - gb.len()] == gs[g]);
                assert(keys[n] == keys.last());
            }
        }
        assert forall|k: int, g: TemporalView|
            0 <= k < keys.len() && #[trigger] temporal_of_title(
                keys[k],
                members(ws, key_of(), keys[k]),
            ).contains(g) implies gs.contains(g) by {
            if k < n {
                assert(b[k] == keys[k]);
                assert(temporal_of_title(b[k], members(ws, key_of(), b[k])).contains(g));
                assert(gb.contains(g));
                let i = choose|i: int| 0 <= i < gb.len() && gb[i] == g;
                assert(gs[i] == g);
            } else {
                let i = choose|i: int| 0 <= i < gl.len() && gl[i] == g;
                assert(gs[gb.len() + i] == g);
            }
        }
    }
}

spec fn made_for(g: TemporalView, ws: Seq<KeyedView>, keys: Seq<Seq<char>>) -> bool {
    exists|k: int|
        #![trigger keys[k]]
        0 <= k < keys.len() && temporal_of_title(keys[k], members(ws, key_of(), keys[k])).contains(
            g,
        )
}

/// The windows with a title, from the one seen last to the one seen first.
spec fn in_line(ws: Seq<WindowView>, title: Seq<char>) -> Seq<WindowView> {
    by_recency(ws.filter(titled(title)), window_seen())
}

proof fn lemma_in_line(ws: Seq<WindowView>, title: Seq<char>)
    requires
        ids_differ(ws),
    ensures
        falling(in_line(ws, title)),
        ids_differ(in_line(ws, title)),
        forall|w: WindowView|
            #[trigger] in_line(ws, title).contains(w) <==> ws.contains(w) && compared_title(w)
                == title,
        temporal_of_title(title, members(all_keyed(ws), key_of(), title)) == shared(
            title,
            clusters(in_line(ws, title)),
        ),
{
    let ms = ws.filter(titled(title));
    let s = in_line(ws, title);
    lemma_filter_differ(ws, titled(title));
    law_by_recency_sorts(ms, window_seen());
    assert forall|i: int, j: int| 0 <= i < j < ms.len() implies window_id()(#[trigger] ms[i])
        != window_id()(#[trigger] ms[j]) by {}
    lemma_recency_apart(ms, window_seen(), window_id());
    assert forall|i: int, j: int| 0 <= i < j < s.len() implies !(#[trigger] s[i]).last_seen.before(
        (#[trigger] s[j]).last_seen,
    ) && s[i].window_id != s[j].window_id by {
        assert(!window_seen()(s[i]).before(window_seen()(s[j])));
        assert(window_id()(s[i]) != window_id()(s[j]));
    }
    assert forall|w: WindowView| #[trigger] s.contains(w) <==> ws.contains(w) && compared_title(w)
        == title by {
        if s.contains(w) {
            lemma_same_items(s, ms, w);
            let i = choose|i: int| 0 <= i < ms.len() && ms[i] == w;
            assert(titled(title)(ms[i]) && ws.contains(ms[i]));
        }
        if ws.contains(w) && compared_title(w) == title {
            assert(titled(title)(w));
            assert(ms.contains(w));
            lemma_same_items(ms, s, w);
        }
    }
    lemma_titled(all_keyed(ws), title);
    lemma_kept_windows(ws, with_title(title), titled(title));
    lemma_windows_only(ms);
}

proof fn lemma_sum_same<T>(a: Seq<T>, b: Seq<T>, amount: spec_fn(T) -> int)
    requires
        a.to_multiset() == b.to_multiset(),
    ensures
        sum_of(a, amount) == sum_of(b, amount),
        a.len() == b.len(),
    decreases a.len(),
{
    broadcast use vstd::seq_lib::group_to_multiset_ensures;

    assert(a.len() == a.to_multiset().len());
    assert(b.len() == b.to_multiset().len());
    if a.len() > 0 {
        let n = a.len() - 1;
        let t = a[n];
        assert(a.contains(t));
        lemma_same_items(a, b, t);
        let j = choose|j: int| 0 <= j < b.len() && b[j] == t;
        let c = b.remove(j);
        assert(a.remove(n) =~= a.drop_last());
        assert(a.drop_last().to_multiset() =~= a.to_multiset().remove(t));
        assert(c.to_multiset() =~= b.to_multiset().remove(t));
        lemma_sum_same(a.drop_last(), c, amount);
        lemma_sum_insert(c, j, t, amount);
        assert(c.insert(j, t) =~= b);
    }
}

proof fn lemma_max<T>(s: Seq<T>, amount: spec_fn(T) -> int)
    ensures
        forall|i: int| 0 <= i < s.len() ==> amount(#[trigger] s[i]) <= max_of(s, amount),
        max_of(s, amount) == 0 || exists|i: int|
            0 <= i < s.len() && amount(#[trigger] s[i]) == max_of(s, amount),
        max_of(s, amount) >= 0,
    decreases s.len(),
{
    if s.len() > 0 {
        let b = s.drop_last();
        let n = s.len() - 1;
        lemma_max(b, amount);
        assert(forall|i: int| 0 <= i < b.len() ==> b[i] == s[i]);
        if max_of(s, amount) != 0 {
            if max_of(s, amount) == amount(s.last()) {
                assert(amount(s[n]) == max_of(s, amount));
            } else {
                let i = choose|i: int|
                    0 <= i < b.len() && amount(#[trigger] b[i]) == max_of(b, amount);
                assert(amount(s[i]) == max_of(s, amount));
            }
        }
    }
}

/// In a cluster, from each window but the latest it is at most an hour to one seen later.
proof fn lemma_leads_on(c: Seq<WindowView>, s: Seq<WindowView>, p: int, i: int)
    requires
        is_cluster(c, s),
        plain_windows(c),
        0 <= p < i < c.len(),
        c[i].last_seen.before(c[p].last_seen),
    ensures
        exists|j: int|
            0 <= j < c.len() && c[i].last_seen.before((#[trigger] c[j]).last_seen)
                && within_an_hour(c[j], c[i]),
    decreases i - p,
{
    if p + 1 < i && c[i].last_seen.before(c[p + 1].last_seen) {
        lemma_leads_on(c, s, p + 1, i);
    } else {
        assert(near_next(c, p));
        law_time_is_a_line(c[p].last_seen, c[p + 1].last_seen);
        law_time_is_a_line(c[p].last_seen, c[i].last_seen);
        law_time_is_a_line(c[i].last_seen, c[p].last_seen);
        law_time_is_a_line(c[i].last_seen, c[p + 1].last_seen);
        if p + 1 < i {
            assert(!c[p + 1].last_seen.before(c[i].last_seen));
            law_time_is_a_line(c[p + 1].last_seen, c[i].last_seen);
        }
        assert(within_an_hour(c[p], c[i]));
    }
}

/// The group made of a cluster.
proof fn lemma_group_of(title: Seq<char>, ws: Seq<WindowView>, c: Seq<WindowView>)
    requires
        ids_differ(ws),
        plain_windows(ws),
        is_cluster(c, in_line(ws, title)),
        c.len() >= 2,
    ensures
        groups_together(temporal_of(title, c), ws),
        forall|w: WindowView|
            c.contains(w) ==> #[trigger] temporal_of(title, c).distinct_ids.contains(w.window_id),
{
    broadcast use vstd::seq_lib::group_to_multiset_ensures;

    let g = temporal_of(title, c);
    let ids = c.map_values(window_id());
    assert forall|i: int, j: int| 0 <= i < ids.len() && 0 <= j < ids.len() && i != j implies ids[i]
        != ids[j] by {
        assert(ids[i] == c[i].window_id && ids[j] == c[j].window_id);
    }
    lemma_distinct_keeps(ids);
    assert(g.distinct_ids == ids);
    lemma_in_line(ws, title);
    lemma_filter_differ(ws, numbered_in(ids));
    let ms = ws.filter(numbered_in(ids));
    assert forall|w: WindowView| c.contains(w) implies #[trigger] g.distinct_ids.contains(
        w.window_id,
    ) by {
        let t = choose|t: int| 0 <= t < c.len() && c[t] == w;
        assert(ids[t] == w.window_id);
    }
    assert forall|w: WindowView| #[trigger] c.contains(w) <==> ms.contains(w) by {
        if c.contains(w) {
            let t = choose|t: int| 0 <= t < c.len() && c[t] == w;
            assert(ids[t] == w.window_id);
            assert(in_line(ws, title).contains(c[t]));
            assert(ws.contains(w) && numbered_in(ids)(w));
        }
        if ms.contains(w) {
            let i = choose|i: int| 0 <= i < ms.len() && ms[i] == w;
            assert(numbered_in(ids)(ms[i]) && ws.contains(ms[i]));
            let t = choose|t: int| 0 <= t < ids.len() && ids[t] == w.window_id;
            assert(c[t].window_id == w.window_id);
            assert(in_line(ws, title).contains(c[t]));
            assert(ws.contains(c[t]));
            let x = choose|x: int| 0 <= x < ws.len() && ws[x] == w;
            let y = choose|y: int| 0 <= y < ws.len() && ws[y] == c[t];
            if x < y {
                assert(ws[x].window_id != ws[y].window_id);
            } else if y < x {
                assert(ws[y].window_id != ws[x].window_id);
            }
        }
    }
    assert(c.no_duplicates());
    assert(ms.no_duplicates());
    c.lemma_multiset_has_no_duplicates();
    ms.lemma_multiset_has_no_duplicates();
    assert(c.to_multiset() =~= ms.to_multiset()) by {
        assert forall|w: WindowView| c.to_multiset().count(w) == ms.to_multiset().count(w) by {
            assert(c.contains(w) <==> c.to_multiset().count(w) > 0);
            assert(ms.contains(w) <==> ms.to_multiset().count(w) > 0);
            assert(c.contains(w) <==> ms.contains(w));
            if c.contains(w) {
                assert(c.to_multiset().contains(w) && ms.to_multiset().contains(w));
            }
        }
    }
    lemma_sum_same(c, ms, window_secs());
    lemma_keyed_time(c);
    lemma_keyed_time(ms);
    lemma_earliest(c, window_first());
    lemma_latest(c, window_seen());
    lemma_max(c, window_secs());
    assert forall|i: int| 0 <= i < ms.len() implies c.contains(#[trigger] ms[i]) by {
        assert(ms.contains(ms[i]));
    }
    assert forall|t: int| 0 <= t < c.len() implies ms.contains(#[trigger] c[t]) by {
        assert(c.contains(c[t]));
    }
    assert(plain_windows(c)) by {
        assert forall|t: int| 0 <= t < c.len() implies (#[trigger] c[t]).last_seen.is_plain() by {
            assert(in_line(ws, title).contains(c[t]));
            assert(ws.contains(c[t]));
        }
    }
    assert forall|i: int| 0 <= i < ms.len() implies compared_title(#[trigger] ms[i]) == title by {
        assert(c.contains(ms[i]));
        let t = choose|t: int| 0 <= t < c.len() && c[t] == ms[i];
        assert(in_line(ws, title).contains(c[t]));
    }
    lemma_group_bounds(title, c, ms);
    assert forall|i: int| 0 <= i < ms.len() implies #[trigger] leads_on(ms, i) by {
        if exists|j: int| 0 <= j < ms.len() && ms[i].last_seen.before((#[trigger] ms[j]).last_seen) {
            let j = choose|j: int|
                0 <= j < ms.len() && ms[i].last_seen.before((#[trigger] ms[j]).last_seen);
            assert(c.contains(ms[i]) && c.contains(ms[j]));
            let x = choose|x: int| 0 <= x < c.len() && c[x] == ms[i];
            let p = choose|p: int| 0 <= p < c.len() && c[p] == ms[j];
            law_instants_are_ordered(c[x].last_seen, c[p].last_seen, c[x].last_seen);
            if x < p {
                assert(!c[x].last_seen.before(c[p].last_seen));
            }
            lemma_leads_on(c, in_line(ws, title), p, x);
            let y = choose|y: int|
                0 <= y < c.len() && c[x].last_seen.before((#[trigger] c[y]).last_seen)
                    && within_an_hour(c[y], c[x]);
            assert(ms.contains(c[y]));
            let k = choose|k: int| 0 <= k < ms.len() && ms[k] == c[y];
            assert(ms[i].last_seen.before(ms[k].last_seen) && within_an_hour(ms[k], ms[i]));
        }
    }
}

proof fn lemma_group_bounds(title: Seq<char>, c: Seq<WindowView>, ms: Seq<WindowView>)
    requires
        c.len() > 0,
        forall|i: int| 0 <= i < ms.len() ==> c.contains(#[trigger] ms[i]),
        forall|t: int| 0 <= t < c.len() ==> ms.contains(#[trigger] c[t]),
    ensures
        longest(ms, temporal_of(title, c).max_duration_seconds),
        first_seen_at(ms, temporal_of(title, c).first_seen),
        last_seen_at(ms, temporal_of(title, c).last_seen),
{
    let g = temporal_of(title, c);
    lemma_earliest(c, window_first());
    lemma_latest(c, window_seen());
    lemma_max(c, window_secs());
    let a = choose|t: int|
        0 <= t < c.len() && window_first()(#[trigger] c[t]) == earliest(c, window_first());
    assert(ms.contains(c[a]));
    let x = choose|x: int| 0 <= x < ms.len() && ms[x] == c[a];
    assert(ms[x].first_seen == g.first_seen);
    let b = choose|t: int|
        0 <= t < c.len() && window_seen()(#[trigger] c[t]) == latest(c, window_seen());
    assert(ms.contains(c[b]));
    let y = choose|y: int| 0 <= y < ms.len() && ms[y] == c[b];
    assert(ms[y].last_seen == g.last_seen);
    if g.max_duration_seconds != 0 {
        let d = choose|t: int|
            0 <= t < c.len() && window_secs()(#[trigger] c[t]) == max_of(c, window_secs());
        assert(ms.contains(c[d]));
        let z = choose|z: int| 0 <= z < ms.len() && ms[z] == c[d];
        assert(ms[z].duration_seconds == g.max_duration_seconds);
    }
    assert forall|i: int| 0 <= i < ms.len() implies !(#[trigger] ms[i]).first_seen.before(
        g.first_seen,
    ) && !g.last_seen.before(ms[i].last_seen) && ms[i].duration_seconds
        <= g.max_duration_seconds by {
        assert(c.contains(ms[i]));
        let t = choose|t: int| 0 <= t < c.len() && c[t] == ms[i];
        assert(!window_first()(c[t]).before(earliest(c, window_first())));
        assert(!latest(c, window_seen()).before(window_seen()(c[t])));
        assert(window_secs()(c[t]) <= max_of(c, window_secs()));
    }
}

/// Of windows with the same title, those last seen at most an hour apart are in one group, and
/// every group is made of such windows alone.
pub proof fn law_near_windows_are_grouped_by_title(ws: Seq<WindowView>)
    requires
        ids_differ(ws),
        plain_windows(ws),
    ensures
        ({
            let groups = temporal_groups(all_keyed(ws));
            &&& forall|g: int|
                0 <= g < groups.len() ==> groups_together(#[trigger] groups[g], ws)
            &&& forall|i: int, j: int|
                0 <= i < ws.len() && 0 <= j < ws.len() && i != j && compared_title(
                    #[trigger] ws[i],
                ) == compared_title(#[trigger] ws[j]) && within_an_hour(ws[i], ws[j])
                    ==> exists|g: int|
                    0 <= g < groups.len() && (#[trigger] groups[g]).distinct_ids.contains(
                        ws[i].window_id,
                    ) && groups[g].distinct_ids.contains(ws[j].window_id)
        }),
{
    let ks = all_keyed(ws);
    let keys = keys_of(ks, key_of());
    let groups = temporal_groups(ks);
    lemma_titles(ks, keys);
    lemma_distinct(ks.map_values(key_of()));
    assert forall|g: int| 0 <= g < groups.len() implies groups_together(
        #[trigger] groups[g],
        ws,
    ) by {
        assert(made_for(groups[g], ks, keys));
        let k = choose|k: int|
            #![trigger keys[k]]
            0 <= k < keys.len() && temporal_of_title(
                keys[k],
                members(ks, key_of(), keys[k]),
            ).contains(groups[g]);
        let title = keys[k];
        lemma_in_line(ws, title);
        let cs = clusters(in_line(ws, title));
        lemma_clusters(in_line(ws, title));
        lemma_shared(title, cs);
        let x = choose|x: int| 0 <= x < shared(title, cs).len() && shared(title, cs)[x] == groups[g];
        assert(made_of(shared(title, cs)[x], title, cs));
        let c = choose|c: int|
            0 <= c < cs.len() && (#[trigger] cs[c]).len() >= 2 && groups[g] == temporal_of(
                title,
                cs[c],
            );
        assert(is_cluster(cs[c], in_line(ws, title)));
        lemma_group_of(title, ws, cs[c]);
    }
    assert forall|i: int, j: int|
        0 <= i < ws.len() && 0 <= j < ws.len() && i != j && compared_title(#[trigger] ws[i])
            == compared_title(#[trigger] ws[j]) && within_an_hour(ws[i], ws[j]) implies exists|
        g: int,
    |
        0 <= g < groups.len() && (#[trigger] groups[g]).distinct_ids.contains(ws[i].window_id)
            && groups[g].distinct_ids.contains(ws[j].window_id) by {
        lemma_near_pair(ws, i, j);
    }
}

/// Two windows with the same title, last seen at most an hour apart, are in one group.
proof fn lemma_near_pair(ws: Seq<WindowView>, i: int, j: int)
    requires
        ids_differ(ws),
        plain_windows(ws),
        0 <= i < ws.len(),
        0 <= j < ws.len(),
        i != j,
        compared_title(ws[i]) == compared_title(ws[j]),
        within_an_hour(ws[i], ws[j]),
    ensures
        exists|g: int|
            0 <= g < temporal_groups(all_keyed(ws)).len() && (#[trigger] temporal_groups(
                all_keyed(ws),
            )[g]).distinct_ids.contains(ws[i].window_id) && temporal_groups(
                all_keyed(ws),
            )[g].distinct_ids.contains(ws[j].window_id),
{
    let ks = all_keyed(ws);
    let keys = keys_of(ks, key_of());
    let groups = temporal_groups(ks);
    let title = compared_title(ws[i]);
    lemma_titles(ks, keys);
    lemma_distinct(ks.map_values(key_of()));
    assert(ks[i] == keyed(ws[i]));
    assert(ks.map_values(key_of())[i] == title);
    assert(ks.map_values(key_of()).contains(title));
    assert(keys.contains(title));
    let k = choose|k: int| 0 <= k < keys.len() && keys[k] == title;
    lemma_in_line(ws, title);
    let s = in_line(ws, title);
    let cs = clusters(s);
    lemma_clusters(s);
    lemma_shared(title, cs);
    assert(ws.contains(ws[i]) && ws.contains(ws[j]));
    assert(s.contains(ws[i]) && s.contains(ws[j]));
    let x = choose|x: int| 0 <= x < s.len() && s[x] == ws[i];
    let y = choose|y: int| 0 <= y < s.len() && s[y] == ws[j];
    assert(ws[i].window_id != ws[j].window_id) by {
        if i < j {
            assert(ws[i].window_id != ws[j].window_id);
        } else {
            assert(ws[j].window_id != ws[i].window_id);
        }
    }
    assert forall|t: int| 0 <= t < s.len() implies (#[trigger] s[t]).last_seen.is_plain() by {
        assert(s.contains(s[t]));
        assert(ws.contains(s[t]));
    }
    let p = if x < y {
        x
    } else {
        y
    };
    let q = if x < y {
        y
    } else {
        x
    };
    assert(chained(s, p, q)) by {
        assert forall|t: int| p <= t < q implies #[trigger] near_next(s, t) by {
            law_time_is_a_line(s[t].last_seen, s[t + 1].last_seen);
            law_time_is_a_line(s[x].last_seen, s[y].last_seen);
            law_time_is_a_line(s[p].last_seen, s[q].last_seen);
            law_time_is_a_line(s[p].last_seen, s[t].last_seen);
            law_time_is_a_line(s[t + 1].last_seen, s[q].last_seen);
            if p < t {
                assert(!s[p].last_seen.before(s[t].last_seen));
            }
            if t + 1 < q {
                assert(!s[t + 1].last_seen.before(s[q].last_seen));
            }
            assert(!s[p].last_seen.before(s[q].last_seen));
        }
    }
    assert(one_cluster(cs, s[p], s[q]));
    let c = choose|c: int|
        0 <= c < cs.len() && (#[trigger] cs[c]).contains(s[p]) && cs[c].contains(s[q]);
    assert(is_cluster(cs[c], s));
    assert(cs[c].len() >= 2) by {
        let a = choose|a: int| 0 <= a < cs[c].len() && cs[c][a] == s[p];
        let b = choose|b: int| 0 <= b < cs[c].len() && cs[c][b] == s[q];
        assert(a != b);
    }
    lemma_group_of(title, ws, cs[c]);
    let made = temporal_of(title, cs[c]);
    assert(shared(title, cs).contains(made));
    assert(temporal_of_title(keys[k], members(ks, key_of(), keys[k])).contains(made));
    assert(groups.contains(made));
    let g = choose|g: int| 0 <= g < groups.len() && groups[g] == made;
    assert(made.distinct_ids.contains(s[p].window_id) && made.distinct_ids.contains(
        s[q].window_id,
    ));
    assert(groups[g].distinct_ids.contains(ws[i].window_id));
}

/// Of the windows left, all are listed where there is room or no limit (0); else as many as there
/// is room for, none of them twice, and none seen earlier than one that is not listed.
pub open spec fn lists_latest(listed: Seq<WindowView>, left: Seq<WindowView>, max: int) -> bool {
    if max <= 0 || left.len() <= max {
        listed == left
    } else {
        &&& listed.len() == max
        &&& ids_differ(listed)
        &&& forall|i: int| 0 <= i < listed.len() ==> left.contains(#[trigger] listed[i])
        &&& forall|i: int, j: int|
            0 <= i < listed.len() && 0 <= j < left.len() && !listed.contains(left[j])
                ==> !(#[trigger] listed[i]).last_seen.before((#[trigger] left[j]).last_seen)
    }
}

/// The groups and the windows listed are what the rules make of the windows.
pub open spec fn sorted_out(
    a: AppView,
    ws: Seq<WindowView>,
    limit: int,
    min: int,
    max: int,
) -> bool {
    let brief_groups = a.ephemeral_groups;
    let near_groups = a.temporal_groups;
    let rest = ws.filter(not_brief(brief_groups));
    &&& forall|g: int|
        0 <= g < brief_groups.len() ==> groups_brief(#[trigger] brief_groups[g], ws, limit, min)
    &&& forall|g: int, h: int|
        0 <= g < h < brief_groups.len() ==> (#[trigger] brief_groups[g]).title_key != (
        #[trigger] brief_groups[h]).title_key
    &&& forall|i: int|
        0 <= i < ws.len() && (#[trigger] ws[i]).duration_seconds < limit && ws.filter(
            brief(limit, compared_title(ws[i])),
        ).len() >= min ==> exists|g: int|
            0 <= g < brief_groups.len() && (#[trigger] brief_groups[g]).title_key == compared_title(
                ws[i],
            )
    &&& plain_windows(rest) ==> {
        &&& forall|g: int|
            0 <= g < near_groups.len() ==> groups_together(#[trigger] near_groups[g], rest)
        &&& forall|i: int, j: int|
            0 <= i < rest.len() && 0 <= j < rest.len() && i != j && compared_title(
                #[trigger] rest[i],
            ) == compared_title(#[trigger] rest[j]) && within_an_hour(rest[i], rest[j])
                ==> exists|g: int|
                0 <= g < near_groups.len() && (#[trigger] near_groups[g]).distinct_ids.contains(
                    rest[i].window_id,
                ) && near_groups[g].distinct_ids.contains(rest[j].window_id)
    }
    &&& lists_latest(a.windows, rest.filter(not_together(near_groups)), max)
}

proof fn lemma_lists_latest(left: Seq<WindowView>, max: int)
    requires
        ids_differ(left),
    ensures
        lists_latest(most_recent(left, max), left, max),
{
    if max > 0 && left.len() > max {
        let s = by_recency(left, window_seen());
        let listed = s.take(max);
        law_by_recency_sorts(left, window_seen());
        assert forall|i: int, j: int| 0 <= i < j < left.len() implies window_id()(
            #[trigger] left[i],
        ) != window_id()(#[trigger] left[j]) by {}
        lemma_recency_apart(left, window_seen(), window_id());
        assert forall|i: int, j: int| 0 <= i < j < listed.len() implies (
        #[trigger] listed[i]).window_id != (#[trigger] listed[j]).window_id by {
            assert(window_id()(s[i]) != window_id()(s[j]));
        }
        assert forall|i: int| 0 <= i < listed.len() implies left.contains(#[trigger] listed[i]) by {
            assert(s.contains(s[i]));
            lemma_same_items(s, left, s[i]);
        }
        assert forall|i: int, j: int|
            0 <= i < listed.len() && 0 <= j < left.len() && !listed.contains(left[j]) implies !(
        #[trigger] listed[i]).last_seen.before((#[trigger] left[j]).last_seen) by {
            assert(left.contains(left[j]));
            lemma_same_items(left, s, left[j]);
            let k = choose|k: int| 0 <= k < s.len() && s[k] == left[j];
            if k < max {
                assert(listed[k] == left[j]);
            }
            assert(!window_seen()(s[i]).before(window_seen()(s[k])));
        }
    }
}

/// The windows of a process are sorted into groups by the rules, whatever its windows are.
pub proof fn law_windows_are_sorted_out(app: AppView, limit: int, min: int, max: int)
    requires
        ids_differ(app.windows),
    ensures
        sorted_out(regrouped(app, limit, min, max), app.windows, limit, min, max),
{
    let ws = app.windows;
    let ks = all_keyed(ws);
    let a = regrouped(app, limit, min, max);
    let es = ephemeral_groups(ks, limit, min);
    law_brief_windows_are_grouped_by_title(ws, limit, min);
    assert forall|w: WindowView| #[trigger] not_brief(es)(w) == not_ephemeral(es)(keyed(w)) by {
        if in_ephemeral(es, w.window_id) {
            let g = choose|g: int|
                0 <= g < es.len() && (#[trigger] es[g]).distinct_ids.contains(w.window_id);
            assert(!not_brief(es)(w));
        }
    }
    lemma_kept_windows(ws, not_ephemeral(es), not_brief(es));
    lemma_filter_differ(ws, not_brief(es));
    let rest = ws.filter(not_brief(es));
    assert(lasting(ks, limit, min) == all_keyed(rest));
    let ts = temporal_groups(all_keyed(rest));
    if plain_windows(rest) {
        law_near_windows_are_grouped_by_title(rest);
    }
    assert forall|w: WindowView| #[trigger] not_together(ts)(w) == not_temporal(ts)(keyed(w)) by {
        if in_temporal(ts, w.window_id) {
            let g = choose|g: int|
                0 <= g < ts.len() && (#[trigger] ts[g]).distinct_ids.contains(w.window_id);
            assert(!not_together(ts)(w));
        }
    }
    lemma_kept_windows(rest, not_temporal(ts), not_together(ts));
    lemma_filter_differ(rest, not_together(ts));
    let left = rest.filter(not_together(ts));
    lemma_windows_only(left);
    assert(windows_only(ungrouped(ks, limit, min)) == left);
    lemma_lists_latest(left, max);
    assert(a.ephemeral_groups == es);
    assert(a.temporal_groups == ts);
    assert(a.windows == most_recent(left, max));
    assert(lists_latest(a.windows, rest.filter(not_together(ts)), max));
}

} // verus!
