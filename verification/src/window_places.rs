//! Where the windows of a process stand once they are sorted into groups: each in exactly one
//! place.

use crate::aggregate::{
    all_keyed, all_last, app_of, law_windows_of_an_app, regrouped, EphemeralView, SliceView,
    TemporalView, WindowView,
};
use crate::grouping::{
    by_recency, distinct, kept, keys_of, lemma_distinct, lemma_kept, lemma_kept_distinct,
    lemma_members, lemma_slot, members, slot,
};
use crate::time::Timestamp;
use crate::window_groups::{
    clusters, ephemeral_groups, in_ephemeral, in_temporal, is_large, is_short, key_of, keyed_id,
    lasting, near, not_ephemeral, not_temporal, shared, staged, temporal_groups, temporal_of,
    temporal_of_title, temporal_of_titles, ungrouped, window_id, window_seen, windows_only,
    KeyedView,
};
use vstd::prelude::*;

verus! {

/// No two of the windows have the same id.
pub open spec fn ids_differ(ws: Seq<WindowView>) -> bool {
    forall|i: int, j: int|
        0 <= i < j < ws.len() ==> (#[trigger] ws[i]).window_id != (#[trigger] ws[j]).window_id
}

/// No two of the windows have the same id.
pub open spec fn keyed_ids_differ(ws: Seq<KeyedView>) -> bool {
    forall|i: int, j: int|
        0 <= i < j < ws.len() ==> (#[trigger] ws[i]).window.window_id != (
        #[trigger] ws[j]).window.window_id
}

/// One of the windows has the id.
pub open spec fn has_window_id(ws: Seq<WindowView>, id: u32) -> bool {
    exists|i: int| 0 <= i < ws.len() && (#[trigger] ws[i]).window_id == id
}

/// The window with the id stands in exactly one place: in one of the groups of short-lived
/// windows, in one of the groups of windows in use around the same time, or, once, among the
/// windows left.
pub open spec fn stands_once(
    ephemeral: Seq<EphemeralView>,
    temporal: Seq<TemporalView>,
    left: Seq<WindowView>,
    id: u32,
) -> bool {
    let short = in_ephemeral(ephemeral, id);
    let near = in_temporal(temporal, id);
    let alone = has_window_id(left, id);
    &&& short || near || alone
    &&& !(short && near) && !(short && alone) && !(near && alone)
    &&& forall|a: int, b: int|
        0 <= a < b < ephemeral.len() ==> !((#[trigger] ephemeral[a]).distinct_ids.contains(id) && (
        #[trigger] ephemeral[b]).distinct_ids.contains(id))
    &&& forall|a: int, b: int|
        0 <= a < b < temporal.len() ==> !((#[trigger] temporal[a]).distinct_ids.contains(id) && (
        #[trigger] temporal[b]).distinct_ids.contains(id))
    &&& forall|a: int, b: int|
        0 <= a < b < left.len() ==> !((#[trigger] left[a]).window_id == id && (
        #[trigger] left[b]).window_id == id)
}

proof fn lemma_members_differ(ws: Seq<KeyedView>, k: Seq<char>)
    requires
        keyed_ids_differ(ws),
    ensures
        keyed_ids_differ(members(ws, key_of(), k)),
    decreases ws.len(),
{
    if ws.len() > 0 {
        let b = ws.drop_last();
        lemma_members_differ(b, k);
        lemma_members(b, key_of(), k);
        let ms = members(ws, key_of(), k);
        let mb = members(b, key_of(), k);
        assert forall|i: int, j: int| 0 <= i < j < ms.len() implies (
        #[trigger] ms[i]).window.window_id != (#[trigger] ms[j]).window.window_id by {
            assert(b.contains(mb[i]));
            let p = choose|p: int| 0 <= p < b.len() && b[p] == mb[i];
            assert(ws[p] == ms[i]);
            if j < mb.len() {
                assert(mb[j] == ms[j]);
            } else {
                assert(ms[j] == ws[ws.len() - 1]);
            }
        }
    }
}

proof fn lemma_kept_differ(ws: Seq<KeyedView>, keep: spec_fn(KeyedView) -> bool)
    requires
        keyed_ids_differ(ws),
    ensures
        keyed_ids_differ(kept(ws, keep)),
{
    let ids = ws.map_values(keyed_id());
    assert forall|i: int, j: int| 0 <= i < ids.len() && 0 <= j < ids.len() && i != j implies ids[i]
        != ids[j] by {
        assert(ids[i] == ws[i].window.window_id && ids[j] == ws[j].window.window_id);
    }
    lemma_kept_distinct(ws, keep, keyed_id());
    let ks = kept(ws, keep);
    assert forall|i: int, j: int| 0 <= i < j < ks.len() implies (#[trigger] ks[i]).window.window_id
        != (#[trigger] ks[j]).window.window_id by {
        assert(ks.map_values(keyed_id())[i] != ks.map_values(keyed_id())[j]);
    }
}

proof fn lemma_recency_differ(ws: Seq<WindowView>)
    requires
        ids_differ(ws),
    ensures
        ids_differ(by_recency(ws, window_seen())),
        forall|id: u32| #[trigger]
            has_window_id(by_recency(ws, window_seen()), id) ==> has_window_id(ws, id),
    decreases ws.len(),
{
    if ws.len() > 0 {
        let tail = ws.drop_first();
        assert forall|i: int, j: int| 0 <= i < j < tail.len() implies (#[trigger] tail[i]).window_id
            != (#[trigger] tail[j]).window_id by {
            assert(tail[i] == ws[i + 1] && tail[j] == ws[j + 1]);
        }
        lemma_recency_differ(tail);
        let rest = by_recency(tail, window_seen());
        let t: Timestamp = window_seen()(ws[0]);
        lemma_slot(rest, window_seen(), t);
        let n = slot(rest, window_seen(), t);
        let r = rest.insert(n, ws[0]);
        assert forall|p: int| 0 <= p < rest.len() implies (#[trigger] rest[p]).window_id
            != ws[0].window_id && has_window_id(ws, rest[p].window_id) by {
            assert(has_window_id(rest, rest[p].window_id));
            assert(has_window_id(tail, rest[p].window_id));
            let q = choose|q: int|
                0 <= q < tail.len() && (#[trigger] tail[q]).window_id == rest[p].window_id;
            assert(ws[q + 1] == tail[q]);
            assert(ws[0].window_id != ws[q + 1].window_id);
        }
        assert forall|i: int, j: int| 0 <= i < j < r.len() implies (#[trigger] r[i]).window_id != (
        #[trigger] r[j]).window_id by {
            if i == n {
                assert(r[j] == rest[j - 1]);
            } else if j == n {
                assert(r[i] == rest[i]);
            } else {
                let a = if i < n {
                    i
                } else {
                    i - 1
                };
                let b = if j < n {
                    j
                } else {
                    j - 1
                };
                assert(rest[a] == r[i] && rest[b] == r[j]);
            }
        }
        assert forall|id: u32| #[trigger] has_window_id(r, id) implies has_window_id(ws, id) by {
            let p = choose|p: int| 0 <= p < r.len() && (#[trigger] r[p]).window_id == id;
            if p == n {
                assert(ws[0].window_id == id);
            } else {
                let a = if p < n {
                    p
                } else {
                    p - 1
                };
                assert(rest[a] == r[p]);
            }
        }
    }
}

/// The clusters hold only windows that were there, and none of them twice.
proof fn lemma_clusters_differ(ws: Seq<WindowView>)
    requires
        ids_differ(ws),
    ensures
        ws.len() > 0 ==> clusters(ws).len() > 0,
        forall|c: int, id: u32|
            0 <= c < clusters(ws).len() && #[trigger] has_window_id(clusters(ws)[c], id)
                ==> has_window_id(ws, id),
        forall|c: int, d: int, id: u32|
            0 <= c < d < clusters(ws).len() ==> !(#[trigger] has_window_id(clusters(ws)[c], id)
                && #[trigger] has_window_id(clusters(ws)[d], id)),
    decreases ws.len(),
{
    let cs = clusters(ws);
    if ws.len() == 1 {
        assert(cs[0] == ws);
    } else if ws.len() > 1 {
        let b = ws.drop_last();
        let last = ws.last();
        let bs = clusters(b);
        lemma_clusters_differ(b);
        assert forall|id: u32| #[trigger] has_window_id(b, id) implies has_window_id(ws, id) && id
            != last.window_id by {
            let p = choose|p: int| 0 <= p < b.len() && (#[trigger] b[p]).window_id == id;
            assert(ws[p] == b[p]);
            assert(ws[p].window_id != ws[ws.len() - 1].window_id);
        }
        assert(has_window_id(ws, last.window_id)) by {
            assert(ws[ws.len() - 1].window_id == last.window_id);
        }
        assert forall|c: int, id: u32|
            0 <= c < cs.len() && #[trigger] has_window_id(cs[c], id) implies (c < bs.len()
            && has_window_id(bs[c], id)) || (c == cs.len() - 1 && id == last.window_id) by {
            let p = choose|p: int| 0 <= p < cs[c].len() && (#[trigger] cs[c][p]).window_id == id;
            if near(ws[ws.len() - 2], last) {
                if c == bs.len() - 1 {
                    if p < bs[c].len() {
                        assert(bs[c][p] == cs[c][p]);
                    }
                } else {
                    assert(cs[c] == bs[c]);
                }
            } else if c < bs.len() {
                assert(cs[c] == bs[c]);
            }
        }
    }
}

proof fn lemma_temporal_ids(key: Seq<char>, ws: Seq<WindowView>, id: u32)
    ensures
        temporal_of(key, ws).distinct_ids.contains(id) <==> has_window_id(ws, id),
{
    let ids = ws.map_values(window_id());
    lemma_distinct(ids);
    if ids.contains(id) {
        let p = choose|p: int| 0 <= p < ids.len() && ids[p] == id;
        assert(ws[p].window_id == id);
    }
    if has_window_id(ws, id) {
        let p = choose|p: int| 0 <= p < ws.len() && (#[trigger] ws[p]).window_id == id;
        assert(ids[p] == id);
    }
}

/// Groups made of clusters that share no window share none.
proof fn lemma_shared_once(key: Seq<char>, cs: Seq<Seq<WindowView>>, id: u32)
    requires
        forall|c: int, d: int|
            0 <= c < d < cs.len() ==> !(#[trigger] has_window_id(cs[c], id) && #[trigger] has_window_id(
                cs[d],
                id,
            )),
    ensures
        in_temporal(shared(key, cs), id) ==> exists|c: int|
            0 <= c < cs.len() && #[trigger] has_window_id(cs[c], id),
        forall|a: int, b: int|
            0 <= a < b < shared(key, cs).len() ==> !((#[trigger] shared(
                key,
                cs,
            )[a]).distinct_ids.contains(id) && (#[trigger] shared(
                key,
                cs,
            )[b]).distinct_ids.contains(id)),
    decreases cs.len(),
{
    if cs.len() > 0 {
        let before = cs.drop_last();
        assert forall|c: int, d: int| 0 <= c < d < before.len() implies !(
        #[trigger] has_window_id(before[c], id) && #[trigger] has_window_id(before[d], id)) by {
            assert(before[c] == cs[c] && before[d] == cs[d]);
        }
        lemma_shared_once(key, before, id);
        lemma_temporal_ids(key, cs.last(), id);
        let gs = shared(key, cs);
        let gb = shared(key, before);
        if in_temporal(gb, id) {
            let c = choose|c: int| 0 <= c < before.len() && #[trigger] has_window_id(before[c], id);
            assert(has_window_id(cs[c], id));
            assert(!has_window_id(cs[cs.len() - 1], id));
        }
        if in_temporal(gs, id) {
            let a = choose|a: int|
                0 <= a < gs.len() && (#[trigger] gs[a]).distinct_ids.contains(id);
            if a < gb.len() {
                assert(gb[a] == gs[a]);
                assert(in_temporal(gb, id));
            } else {
                assert(has_window_id(cs[cs.len() - 1], id));
            }
        }
        assert forall|a: int, b: int| 0 <= a < b < gs.len() implies !((
        #[trigger] gs[a]).distinct_ids.contains(id) && (#[trigger] gs[b]).distinct_ids.contains(
            id,
        )) by {
            assert(gs[a] == gb[a]);
            if b < gb.len() {
                assert(gs[b] == gb[b]);
            } else if gb[a].distinct_ids.contains(id) {
                assert(in_temporal(gb, id));
            }
        }
    }
}

/// The groups among windows that share a title hold only those windows, and none twice.
proof fn lemma_title_once(key: Seq<char>, ms: Seq<KeyedView>, id: u32)
    requires
        keyed_ids_differ(ms),
    ensures
        in_temporal(temporal_of_title(key, ms), id) ==> exists|i: int|
            0 <= i < ms.len() && (#[trigger] ms[i]).window.window_id == id,
        forall|a: int, b: int|
            0 <= a < b < temporal_of_title(key, ms).len() ==> !((#[trigger] temporal_of_title(
                key,
                ms,
            )[a]).distinct_ids.contains(id) && (#[trigger] temporal_of_title(
                key,
                ms,
            )[b]).distinct_ids.contains(id)),
{
    let ws = windows_only(ms);
    assert forall|i: int, j: int| 0 <= i < j < ws.len() implies (#[trigger] ws[i]).window_id != (
    #[trigger] ws[j]).window_id by {
        assert(ws[i] == ms[i].window && ws[j] == ms[j].window);
    }
    lemma_recency_differ(ws);
    let sorted = by_recency(ws, window_seen());
    lemma_clusters_differ(sorted);
    let cs = clusters(sorted);
    lemma_shared_once(key, cs, id);
    if in_temporal(temporal_of_title(key, ms), id) {
        let c = choose|c: int| 0 <= c < cs.len() && #[trigger] has_window_id(cs[c], id);
        assert(has_window_id(sorted, id));
        assert(has_window_id(ws, id));
        let i = choose|i: int| 0 <= i < ws.len() && (#[trigger] ws[i]).window_id == id;
        assert(ms[i].window.window_id == id);
    }
}

/// The groups among windows that have one of the titles hold only those windows, and none twice.
proof fn lemma_titles_once(ws: Seq<KeyedView>, keys: Seq<Seq<char>>, id: u32)
    requires
        keyed_ids_differ(ws),
        keys.no_duplicates(),
    ensures
        in_temporal(temporal_of_titles(ws, keys), id) ==> exists|i: int|
            0 <= i < ws.len() && (#[trigger] ws[i]).window.window_id == id && keys.contains(
                ws[i].key,
            ),
        forall|a: int, b: int|
            0 <= a < b < temporal_of_titles(ws, keys).len() ==> !((#[trigger] temporal_of_titles(
                ws,
                keys,
            )[a]).distinct_ids.contains(id) && (#[trigger] temporal_of_titles(
                ws,
                keys,
            )[b]).distinct_ids.contains(id)),
    decreases keys.len(),
{
    if keys.len() > 0 {
        let before = keys.drop_last();
        let key = keys.last();
        let ms = members(ws, key_of(), key);
        assert(keys =~= before.push(key));
        lemma_titles_once(ws, before, id);
        lemma_members(ws, key_of(), key);
        lemma_members_differ(ws, key);
        lemma_title_once(key, ms, id);
        let gb = temporal_of_titles(ws, before);
        let gl = temporal_of_title(key, ms);
        let gs = temporal_of_titles(ws, keys);
        assert(gs =~= gb + gl);
        if in_temporal(gl, id) {
            let m = choose|m: int| 0 <= m < ms.len() && (#[trigger] ms[m]).window.window_id == id;
            assert(ws.contains(ms[m]) && key_of()(ms[m]) == key);
            let i = choose|i: int| 0 <= i < ws.len() && ws[i] == ms[m];
            assert(ws[i].window.window_id == id && ws[i].key == key);
            assert(keys[keys.len() - 1] == key);
            assert(keys.contains(ws[i].key));
            if in_temporal(gb, id) {
                let j = choose|j: int|
                    0 <= j < ws.len() && (#[trigger] ws[j]).window.window_id == id
                        && before.contains(ws[j].key);
                assert(i == j);
                let p = choose|p: int| 0 <= p < before.len() && before[p] == key;
                assert(keys[p] == keys[keys.len() - 1]);
            }
        } else if in_temporal(gb, id) {
            let j = choose|j: int|
                0 <= j < ws.len() && (#[trigger] ws[j]).window.window_id == id && before.contains(
                    ws[j].key,
                );
            let p = choose|p: int| 0 <= p < before.len() && before[p] == ws[j].key;
            assert(keys[p] == ws[j].key);
            assert(keys.contains(ws[j].key));
        }
        assert forall|a: int| 0 <= a < gs.len() && (#[trigger] gs[a]).distinct_ids.contains(
            id,
        ) implies (a < gb.len() ==> in_temporal(gb, id)) && (a >= gb.len() ==> in_temporal(
            gl,
            id,
        )) by {
            if a < gb.len() {
                assert(gb[a] == gs[a]);
            } else {
                assert(gl[a - gb.len()] == gs[a]);
            }
        }
        assert forall|a: int, b: int| 0 <= a < b < gs.len() implies !((
        #[trigger] gs[a]).distinct_ids.contains(id) && (#[trigger] gs[b]).distinct_ids.contains(
            id,
        )) by {
            if b < gb.len() {
                assert(gs[a] == gb[a] && gs[b] == gb[b]);
            } else if a >= gb.len() {
                assert(gs[a] == gl[a - gb.len()] && gs[b] == gl[b - gb.len()]);
            }
        }
        if in_temporal(gs, id) {
            let a = choose|a: int|
                0 <= a < gs.len() && (#[trigger] gs[a]).distinct_ids.contains(id);
            assert(in_temporal(gb, id) || in_temporal(gl, id));
        }
    }
}

spec fn title_of() -> spec_fn(EphemeralView) -> Seq<char> {
    |g: EphemeralView| g.title_key
}

/// What the groups of short-lived windows are called, and what they hold.
proof fn lemma_staged(ws: Seq<KeyedView>, limit: int, g: int)
    requires
        0 <= g < staged(ws, limit).len(),
    ensures
        staged(ws, limit)[g].title_key == keys_of(kept(ws, is_short(limit)), key_of())[g],
        forall|id: u32| #[trigger]
            staged(ws, limit)[g].distinct_ids.contains(id) ==> exists|i: int|
                0 <= i < ws.len() && (#[trigger] ws[i]).window.window_id == id && ws[i].key
                    == staged(ws, limit)[g].title_key,
{
    let ss = kept(ws, is_short(limit));
    let ks = keys_of(ss, key_of());
    let k = ks[g];
    assert(ks.contains(k));
    let ms = members(ss, key_of(), k);
    lemma_members(ss, key_of(), k);
    lemma_kept(ws, is_short(limit));
    assert(key_of()(ms[0]) == k);
    let group = staged(ws, limit)[g];
    assert forall|id: u32| #[trigger] group.distinct_ids.contains(id) implies exists|i: int|
        0 <= i < ws.len() && (#[trigger] ws[i]).window.window_id == id && ws[i].key
            == group.title_key by {
        let ids = ms.map_values(keyed_id());
        lemma_distinct(ids);
        assert(distinct(ids).contains(id));
        assert(ids.contains(id));
        let p = choose|p: int| 0 <= p < ids.len() && ids[p] == id;
        assert(ss.contains(ms[p]) && key_of()(ms[p]) == k);
        let q = choose|q: int| 0 <= q < ss.len() && ss[q] == ms[p];
        assert(ws.contains(ss[q]));
        let i = choose|i: int| 0 <= i < ws.len() && ws[i] == ss[q];
        assert(ws[i].window.window_id == id && ws[i].key == k);
    }
}

/// The groups of short-lived windows hold only windows that were there, and none twice.
proof fn lemma_ephemeral_once(ws: Seq<KeyedView>, limit: int, min: int, id: u32)
    requires
        keyed_ids_differ(ws),
    ensures
        forall|a: int, b: int|
            0 <= a < b < ephemeral_groups(ws, limit, min).len() ==> !((#[trigger] ephemeral_groups(
                ws,
                limit,
                min,
            )[a]).distinct_ids.contains(id) && (#[trigger] ephemeral_groups(
                ws,
                limit,
                min,
            )[b]).distinct_ids.contains(id)),
        in_ephemeral(ephemeral_groups(ws, limit, min), id) ==> exists|i: int|
            0 <= i < ws.len() && (#[trigger] ws[i]).window.window_id == id,
{
    let ss = kept(ws, is_short(limit));
    let ks = keys_of(ss, key_of());
    lemma_distinct(ss.map_values(key_of()));
    let all = staged(ws, limit);
    let titles = all.map_values(title_of());
    assert forall|g: int| 0 <= g < all.len() implies #[trigger] titles[g] == ks[g] by {
        lemma_staged(ws, limit, g);
    }
    assert(titles =~= ks);
    lemma_kept_distinct(all, is_large(min), title_of());
    lemma_kept(all, is_large(min));
    let es = ephemeral_groups(ws, limit, min);
    assert forall|a: int| 0 <= a < es.len() && (#[trigger] es[a]).distinct_ids.contains(
        id,
    ) implies exists|i: int|
        0 <= i < ws.len() && (#[trigger] ws[i]).window.window_id == id && ws[i].key
            == es[a].title_key by {
        assert(all.contains(es[a]));
        let g = choose|g: int| 0 <= g < all.len() && all[g] == es[a];
        lemma_staged(ws, limit, g);
    }
    assert forall|a: int, b: int| 0 <= a < b < es.len() implies !((
    #[trigger] es[a]).distinct_ids.contains(id) && (#[trigger] es[b]).distinct_ids.contains(
        id,
    )) by {
        if es[a].distinct_ids.contains(id) && es[b].distinct_ids.contains(id) {
            let i = choose|i: int|
                0 <= i < ws.len() && (#[trigger] ws[i]).window.window_id == id && ws[i].key
                    == es[a].title_key;
            let j = choose|j: int|
                0 <= j < ws.len() && (#[trigger] ws[j]).window.window_id == id && ws[j].key
                    == es[b].title_key;
            assert(i == j);
            let kt = es.map_values(title_of());
            assert(kt[a] == kt[b]);
        }
    }
}

/// With no limit on the windows left, each window stands in exactly one place, and no group and
/// no place is made up: what stands there was a window of the process.
pub proof fn law_each_window_stands_once(ws: Seq<KeyedView>, limit: int, min: int, id: u32)
    requires
        keyed_ids_differ(ws),
    ensures
        ({
            let ephemeral = ephemeral_groups(ws, limit, min);
            let temporal = temporal_groups(lasting(ws, limit, min));
            let left = windows_only(ungrouped(ws, limit, min));
            if has_window_id(windows_only(ws), id) {
                stands_once(ephemeral, temporal, left, id)
            } else {
                !in_ephemeral(ephemeral, id) && !in_temporal(temporal, id) && !has_window_id(left, id)
            }
        }),
{
    let es = ephemeral_groups(ws, limit, min);
    let rest = lasting(ws, limit, min);
    let ts = temporal_groups(rest);
    let us = ungrouped(ws, limit, min);
    let left = windows_only(us);
    let all = windows_only(ws);
    lemma_ephemeral_once(ws, limit, min, id);
    lemma_kept(ws, not_ephemeral(es));
    lemma_kept_differ(ws, not_ephemeral(es));
    lemma_distinct(rest.map_values(key_of()));
    lemma_titles_once(rest, keys_of(rest, key_of()), id);
    lemma_kept(rest, not_temporal(ts));
    lemma_kept_differ(rest, not_temporal(ts));
    assert forall|i: int| 0 <= i < ws.len() && (#[trigger] ws[i]).window.window_id
        == id implies has_window_id(all, id) by {
        assert(all[i].window_id == id);
    }
    assert forall|r: int| 0 <= r < rest.len() && (#[trigger] rest[r]).window.window_id
        == id implies !in_ephemeral(es, id) && has_window_id(all, id) by {
        assert(ws.contains(rest[r]));
        let i = choose|i: int| 0 <= i < ws.len() && ws[i] == rest[r];
        assert(ws[i].window.window_id == id);
        assert(not_ephemeral(es)(rest[r]));
    }
    if has_window_id(left, id) {
        let u = choose|u: int| 0 <= u < left.len() && (#[trigger] left[u]).window_id == id;
        assert(us[u].window.window_id == id);
        assert(rest.contains(us[u]) && not_temporal(ts)(us[u]));
        let r = choose|r: int| 0 <= r < rest.len() && rest[r] == us[u];
        assert(rest[r].window.window_id == id);
    }
    if has_window_id(all, id) {
        let i = choose|i: int| 0 <= i < all.len() && (#[trigger] all[i]).window_id == id;
        assert(ws.contains(ws[i]) && ws[i].window.window_id == id);
        if !in_ephemeral(es, id) {
            assert(not_ephemeral(es)(ws[i]));
            assert(rest.contains(ws[i]));
            if !in_temporal(ts, id) {
                assert(not_temporal(ts)(ws[i]));
                assert(us.contains(ws[i]));
                let u = choose|u: int| 0 <= u < us.len() && us[u] == ws[i];
                assert(left[u].window_id == id);
            }
        }
        assert forall|a: int, b: int| 0 <= a < b < left.len() implies !((
        #[trigger] left[a]).window_id == id && (#[trigger] left[b]).window_id == id) by {
            assert(us[a].window.window_id != us[b].window.window_id);
        }
    }
}

/// Where the limit on the windows left is none or is not reached, each window that a process used
/// stands in exactly one place of what is reported of the process, and nothing else stands there.
pub proof fn law_windows_of_an_app_stand_once(
    ss: Seq<SliceView>,
    limit: int,
    min: int,
    max: int,
    id: u32,
)
    requires
        all_last(ss),
        max <= 0 || ungrouped(all_keyed(app_of(ss).windows), limit, min).len() <= max,
    ensures
        ({
            let app = regrouped(app_of(ss), limit, min, max);
            if has_window_id(app_of(ss).windows, id) {
                stands_once(app.ephemeral_groups, app.temporal_groups, app.windows, id)
            } else {
                !in_ephemeral(app.ephemeral_groups, id) && !in_temporal(app.temporal_groups, id)
                    && !has_window_id(app.windows, id)
            }
        }),
{
    law_windows_of_an_app(ss);
    let ws = all_keyed(app_of(ss).windows);
    assert(windows_only(ws) =~= app_of(ss).windows);
    law_each_window_stands_once(ws, limit, min, id);
}

} // verus!
