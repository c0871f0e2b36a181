//! Sorts the windows of a process into groups: short-lived windows that share a title, windows
//! that share a title and were in use around the same time, and the rest.

use crate::aggregate::{
    EphemeralGroup, EphemeralView, TemporalGroup, TemporalView, WindowActivity, WindowView,
};
use crate::grouping::{
    by_recency, distinct, earliest, grouped, kept, keys_of, latest, law_by_recency_sorts,
    lemma_by_recency_views, lemma_distinct, lemma_grouped_push, lemma_kept, lemma_kept_sum,
    lemma_members, lemma_members_sum, max_of, members, seen_by, sort_by_recency, sum_of,
};
use crate::text::{lowercased, to_lowercase, trim, trimmed};
use crate::time::{Timestamp, NANOS_PER_SEC};
use crate::views::{group_views, lemma_take_all, lemma_take_succ, lemma_views_push, views};
use vstd::prelude::*;

verus! {

/// Windows in use less than this many seconds apart belong together.
pub const NEAR_SECS: i64 = 3600;

/// What titles are compared by: the title without surrounding white space, in lower case.
pub open spec fn title_key(title: Seq<char>) -> Seq<char> {
    lowercased(trimmed(title))
}

/// What titles are compared by.
pub fn normalize_title(s: &str) -> (r: String)
    ensures
        r@ == title_key(s@),
{
    to_lowercase(trim(s).as_str())
}

/// A window and the key that its title is compared by.
#[derive(Debug)]
pub struct KeyedWindow {
    pub key: String,
    pub window: WindowActivity,
}

#[verifier::ext_equal]
pub struct KeyedView {
    pub key: Seq<char>,
    pub window: WindowView,
}

impl View for KeyedWindow {
    type V = KeyedView;

    open spec fn view(&self) -> KeyedView {
        KeyedView { key: self.key@, window: self.window@ }
    }
}

impl Clone for KeyedWindow {
    fn clone(&self) -> (res: Self)
        ensures
            res@ == self@,
    {
        KeyedWindow { key: self.key.clone(), window: self.window.clone() }
    }
}

pub open spec fn key_of() -> spec_fn(KeyedView) -> Seq<char> {
    |w: KeyedView| w.key
}

pub open spec fn keyed_id() -> spec_fn(KeyedView) -> u32 {
    |w: KeyedView| w.window.window_id
}

pub open spec fn keyed_secs() -> spec_fn(KeyedView) -> int {
    |w: KeyedView| w.window.duration_seconds
}

pub open spec fn keyed_first() -> spec_fn(KeyedView) -> Timestamp {
    |w: KeyedView| w.window.first_seen
}

pub open spec fn keyed_last() -> spec_fn(KeyedView) -> Timestamp {
    |w: KeyedView| w.window.last_seen
}

/// The window was in use for less than `limit` seconds.
pub open spec fn is_short(limit: int) -> spec_fn(KeyedView) -> bool {
    |w: KeyedView| w.window.duration_seconds < limit
}

/// The group of short-lived windows that share a title.
pub open spec fn ephemeral_of(ms: Seq<KeyedView>) -> EphemeralView {
    EphemeralView {
        title_key: ms[0].key,
        distinct_ids: distinct(ms.map_values(keyed_id())),
        occurrence_count: ms.len() as int,
        total_duration_seconds: sum_of(ms, keyed_secs()),
        first_seen: earliest(ms, keyed_first()),
        last_seen: latest(ms, keyed_last()),
    }
}

pub open spec fn make_ephemeral() -> spec_fn(Seq<KeyedView>) -> EphemeralView {
    |ms: Seq<KeyedView>| ephemeral_of(ms)
}

/// The short-lived windows, grouped by title.
pub open spec fn staged(ws: Seq<KeyedView>, limit: int) -> Seq<EphemeralView> {
    grouped(kept(ws, is_short(limit)), key_of(), make_ephemeral())
}

/// The group has at least `min` windows.
pub open spec fn is_large(min: int) -> spec_fn(EphemeralView) -> bool {
    |g: EphemeralView| g.distinct_ids.len() >= min
}

/// The groups of at least `min` short-lived windows that share a title.
pub open spec fn ephemeral_groups(ws: Seq<KeyedView>, limit: int, min: int) -> Seq<EphemeralView> {
    kept(staged(ws, limit), is_large(min))
}

/// The window is in one of the groups.
pub open spec fn in_ephemeral(groups: Seq<EphemeralView>, id: u32) -> bool {
    exists|i: int| 0 <= i < groups.len() && (#[trigger] groups[i]).distinct_ids.contains(id)
}

/// The window is in one of the groups.
pub open spec fn in_temporal(groups: Seq<TemporalView>, id: u32) -> bool {
    exists|i: int| 0 <= i < groups.len() && (#[trigger] groups[i]).distinct_ids.contains(id)
}

pub open spec fn not_ephemeral(groups: Seq<EphemeralView>) -> spec_fn(KeyedView) -> bool {
    |w: KeyedView| !in_ephemeral(groups, w.window.window_id)
}

pub open spec fn not_temporal(groups: Seq<TemporalView>) -> spec_fn(KeyedView) -> bool {
    |w: KeyedView| !in_temporal(groups, w.window.window_id)
}

/// The windows without their keys.
pub open spec fn windows_only(ms: Seq<KeyedView>) -> Seq<WindowView> {
    ms.map_values(|w: KeyedView| w.window)
}

pub open spec fn window_seen() -> spec_fn(WindowView) -> Timestamp {
    |w: WindowView| w.last_seen
}

pub open spec fn window_first() -> spec_fn(WindowView) -> Timestamp {
    |w: WindowView| w.first_seen
}

pub open spec fn window_id() -> spec_fn(WindowView) -> u32 {
    |w: WindowView| w.window_id
}

pub open spec fn window_secs() -> spec_fn(WindowView) -> int {
    |w: WindowView| w.duration_seconds
}

/// The second window was last seen at most an hour before the first.
pub open spec fn near(a: WindowView, b: WindowView) -> bool {
    a.last_seen.nanos_since(b.last_seen) <= NEAR_SECS * NANOS_PER_SEC
}

/// Windows in order of recency, cut wherever one is not near the one before it.
pub open spec fn clusters(ws: Seq<WindowView>) -> Seq<Seq<WindowView>>
    decreases ws.len(),
{
    if ws.len() == 0 {
        Seq::empty()
    } else if ws.len() == 1 {
        seq![ws]
    } else {
        let before = clusters(ws.drop_last());
        if near(ws[ws.len() - 2], ws.last()) {
            before.update(before.len() - 1, before.last().push(ws.last()))
        } else {
            before.push(seq![ws.last()])
        }
    }
}

/// A sum that stops at the largest number that the counter holds.
pub open spec fn saturated(n: int) -> int {
    if n > u64::MAX {
        u64::MAX as int
    } else {
        n
    }
}

/// The group of windows that share a title and were in use around the same time.
pub open spec fn temporal_of(key: Seq<char>, ws: Seq<WindowView>) -> TemporalView {
    TemporalView {
        title_key: key,
        distinct_ids: distinct(ws.map_values(window_id())),
        occurrence_count: distinct(ws.map_values(window_id())).len() as int,
        total_duration_seconds: saturated(sum_of(ws, window_secs())),
        max_duration_seconds: max_of(ws, window_secs()),
        first_seen: earliest(ws, window_first()),
        last_seen: latest(ws, window_seen()),
        anchor_last_seen: latest(ws, window_seen()),
    }
}

/// The clusters of two windows or more, as groups.
pub open spec fn shared(key: Seq<char>, cs: Seq<Seq<WindowView>>) -> Seq<TemporalView>
    decreases cs.len(),
{
    if cs.len() == 0 {
        Seq::empty()
    } else if cs.last().len() >= 2 {
        shared(key, cs.drop_last()).push(temporal_of(key, cs.last()))
    } else {
        shared(key, cs.drop_last())
    }
}

/// The groups among the windows that share one title.
pub open spec fn temporal_of_title(key: Seq<char>, ms: Seq<KeyedView>) -> Seq<TemporalView> {
    shared(key, clusters(by_recency(windows_only(ms), window_seen())))
}

/// The groups among the windows that have one of the given titles.
pub open spec fn temporal_of_titles(ws: Seq<KeyedView>, keys: Seq<Seq<char>>) -> Seq<TemporalView>
    decreases keys.len(),
{
    if keys.len() == 0 {
        Seq::empty()
    } else {
        temporal_of_titles(ws, keys.drop_last()) + temporal_of_title(
            keys.last(),
            members(ws, key_of(), keys.last()),
        )
    }
}

/// The groups of windows that share a title and were in use around the same time.
pub open spec fn temporal_groups(ws: Seq<KeyedView>) -> Seq<TemporalView> {
    temporal_of_titles(ws, keys_of(ws, key_of()))
}

/// The `max` windows seen last, where there are more than that; 0 stands for no limit.
pub open spec fn most_recent(ws: Seq<WindowView>, max: int) -> Seq<WindowView> {
    if max > 0 && ws.len() > max {
        by_recency(ws, window_seen()).take(max)
    } else {
        ws
    }
}

/// The windows that are in no group of short-lived ones.
pub open spec fn lasting(ws: Seq<KeyedView>, limit: int, min: int) -> Seq<KeyedView> {
    kept(ws, not_ephemeral(ephemeral_groups(ws, limit, min)))
}

/// The windows that are in no group at all.
pub open spec fn ungrouped(ws: Seq<KeyedView>, limit: int, min: int) -> Seq<KeyedView> {
    let rest = lasting(ws, limit, min);
    kept(rest, not_temporal(temporal_groups(rest)))
}

/// The windows of a process in groups, and the windows left.
#[derive(Debug)]
pub struct WindowGroups {
    pub windows: Vec<WindowActivity>,
    pub ephemeral_groups: Vec<EphemeralGroup>,
    pub temporal_groups: Vec<TemporalGroup>,
}

/// The windows' durations together fit a counter, and so does their number.
pub open spec fn windows_fit(ws: Seq<KeyedView>) -> bool {
    &&& sum_of(ws, keyed_secs()) <= u64::MAX
    &&& ws.len() <= u32::MAX
    &&& forall|i: int| 0 <= i < ws.len() ==> (#[trigger] ws[i]).window.duration_seconds >= 0
}

fn push_distinct(ids: &mut Vec<u32>, id: u32)
    ensures
        final(ids)@ == if old(ids)@.contains(id) {
            old(ids)@
        } else {
            old(ids)@.push(id)
        },
{
    if !has_id(ids, id) {
        ids.push(id);
    }
}

fn has_id(ids: &Vec<u32>, id: u32) -> (r: bool)
    ensures
        r == ids@.contains(id),
{
    let mut i: usize = 0;
    while i < ids.len()
        invariant
            i <= ids.len(),
            forall|j: int| 0 <= j < i ==> ids@[j] != id,
        decreases ids.len() - i,
    {
        if ids[i] == id {
            return true;
        }
        i += 1;
    }
    false
}

proof fn lemma_ephemeral_push(ms: Seq<KeyedView>, w: KeyedView)
    requires
        ms.len() > 0,
    ensures
        ephemeral_of(ms.push(w)) == (EphemeralView {
            title_key: ephemeral_of(ms).title_key,
            distinct_ids: if ephemeral_of(ms).distinct_ids.contains(w.window.window_id) {
                ephemeral_of(ms).distinct_ids
            } else {
                ephemeral_of(ms).distinct_ids.push(w.window.window_id)
            },
            occurrence_count: ephemeral_of(ms).occurrence_count + 1,
            total_duration_seconds: ephemeral_of(ms).total_duration_seconds
                + w.window.duration_seconds,
            first_seen: ephemeral_of(ms).first_seen.earlier(w.window.first_seen),
            last_seen: ephemeral_of(ms).last_seen.later(w.window.last_seen),
        }),
{
    assert(ms.push(w).drop_last() =~= ms);
    assert(ms.push(w).map_values(keyed_id()).drop_last() =~= ms.map_values(keyed_id()));
}

proof fn lemma_ephemeral_one(w: KeyedView)
    ensures
        ephemeral_of(seq![w]) == (EphemeralView {
            title_key: w.key,
            distinct_ids: seq![w.window.window_id],
            occurrence_count: 1,
            total_duration_seconds: w.window.duration_seconds,
            first_seen: w.window.first_seen,
            last_seen: w.window.last_seen,
        }),
{
    let one = seq![w];
    let ids = one.map_values(keyed_id());
    assert(one.drop_last() =~= Seq::empty());
    assert(sum_of(one.drop_last(), keyed_secs()) == 0);
    assert(ids.drop_last() =~= Seq::empty());
    assert(distinct(ids.drop_last()) =~= Seq::empty());
    assert(distinct(ids) =~= seq![w.window.window_id]);
}

/// Adds a short-lived window to the group of its title, and a group where there is none.
fn absorb_short(groups: &mut Vec<EphemeralGroup>, w: &KeyedWindow, Ghost(ss): Ghost<Seq<KeyedView>>)
    requires
        views(old(groups)@) == grouped(ss, key_of(), make_ephemeral()),
        windows_fit(ss.push(w@)),
    ensures
        views(final(groups)@) == grouped(ss.push(w@), key_of(), make_ephemeral()),
{
    broadcast use lemma_views_push;

    let ghost x = w@;
    let ghost k = x.key;
    let ghost ks = keys_of(ss, key_of());
    let ghost before = views(groups@);
    proof {
        assert(ss.push(x).drop_last() =~= ss);
        assert forall|i: int| 0 <= i < ss.len() implies (#[trigger] ss[i]).window.duration_seconds
            >= 0 by {
            assert(ss.push(x)[i] == ss[i]);
        }
        assert(ss.push(x)[ss.len() as int] == x);
        lemma_grouped_push(ss, x, key_of(), make_ephemeral());
        lemma_members(ss, key_of(), k);
        lemma_members_sum(ss, key_of(), k, keyed_secs());
        lemma_distinct(ss.map_values(key_of()));
        assert forall|j: int| 0 <= j < before.len() implies (#[trigger] before[j]).title_key
            == ks[j] by {
            lemma_members(ss, key_of(), ks[j]);
            assert(ks.contains(ks[j]));
        }
    }
    let mut i: usize = 0;
    while i < groups.len()
        invariant
            k == w@.key,
            before == views(groups@),
            i <= groups.len(),
            ks.len() == before.len(),
            forall|j: int| 0 <= j < before.len() ==> (#[trigger] before[j]).title_key == ks[j],
            forall|j: int| 0 <= j < i ==> ks[j] != k,
        ensures
            i < groups.len() ==> ks[i as int] == k,
            i >= groups.len() ==> forall|j: int| 0 <= j < ks.len() ==> ks[j] != k,
        decreases groups.len() - i,
    {
        assert(before[i as int].title_key == ks[i as int]);
        if groups[i].title_key == w.key {
            break;
        }
        i += 1;
    }
    if i < groups.len() {
        let ghost ms = members(ss, key_of(), k);
        proof {
            assert(ks.contains(k));
            assert(ks.index_of(k) == i);
            assert(before[i as int] == ephemeral_of(ms));
            lemma_ephemeral_push(ms, x);
        }
        let g = &mut groups[i];
        push_distinct(&mut g.distinct_ids, w.window.window_id);
        g.occurrence_count = g.occurrence_count + 1;
        g.total_duration_seconds = g.total_duration_seconds + w.window.duration_seconds;
        g.first_seen = g.first_seen.min_with(&w.window.first_seen);
        g.last_seen = g.last_seen.max_with(&w.window.last_seen);
        assert(views(groups@) =~= before.update(i as int, ephemeral_of(ms.push(x))));
    } else {
        assert(!ks.contains(k));
        proof {
            lemma_ephemeral_one(x);
        }
        let mut ids: Vec<u32> = Vec::new();
        ids.push(w.window.window_id);
        groups.push(
            EphemeralGroup {
                title_key: w.key.clone(),
                distinct_ids: ids,
                occurrence_count: 1,
                total_duration_seconds: w.window.duration_seconds,
                first_seen: w.window.first_seen,
                last_seen: w.window.last_seen,
            },
        );
        assert(views(groups@).last() == ephemeral_of(seq![x]));
    }
}

proof fn lemma_windows_fit_take(ws: Seq<KeyedView>, n: int)
    requires
        windows_fit(ws),
        0 <= n <= ws.len(),
    ensures
        windows_fit(ws.take(n)),
    decreases ws.len(),
{
    if n == ws.len() {
        lemma_take_all(ws);
    } else {
        let b = ws.drop_last();
        assert forall|i: int| 0 <= i < b.len() implies (#[trigger] b[i]).window.duration_seconds
            >= 0 by {
            assert(b[i] == ws[i]);
        }
        assert(ws[ws.len() - 1].window.duration_seconds >= 0);
        lemma_windows_fit_take(b, n);
        assert(b.take(n) =~= ws.take(n));
    }
}

proof fn lemma_windows_fit_kept(ws: Seq<KeyedView>, keep: spec_fn(KeyedView) -> bool)
    requires
        windows_fit(ws),
    ensures
        windows_fit(kept(ws, keep)),
{
    lemma_kept(ws, keep);
    assert(forall|i: int| 0 <= i < ws.len() ==> keyed_secs()(#[trigger] ws[i]) >= 0);
    lemma_kept_sum(ws, keep, keyed_secs());
    assert forall|i: int| 0 <= i < kept(ws, keep).len() implies (#[trigger] kept(
        ws,
        keep,
    )[i]).window.duration_seconds >= 0 by {
        assert(ws.contains(kept(ws, keep)[i]));
    }
}

/// The groups of at least `min` windows with the same title, each in use for less than `limit`
/// seconds.
fn group_short(ws: &Vec<KeyedWindow>, limit: u64, min: usize) -> (r: Vec<EphemeralGroup>)
    requires
        windows_fit(views(ws@)),
    ensures
        views(r@) == ephemeral_groups(views(ws@), limit as int, min as int),
{
    broadcast use group_views;

    let ghost all = views(ws@);
    let ghost short = is_short(limit as int);
    let mut groups: Vec<EphemeralGroup> = Vec::new();
    let mut i: usize = 0;
    assert(views(groups@) =~= grouped(kept(all.take(0), short), key_of(), make_ephemeral()));
    while i < ws.len()
        invariant
            all == views(ws@),
            windows_fit(all),
            short == is_short(limit as int),
            i <= ws.len(),
            views(groups@) == grouped(kept(all.take(i as int), short), key_of(), make_ephemeral()),
        decreases ws.len() - i,
    {
        proof {
            lemma_take_succ(all, i as int);
            lemma_windows_fit_take(all, i + 1);
            lemma_windows_fit_kept(all.take(i + 1), short);
        }
        if ws[i].window.duration_seconds < limit {
            absorb_short(&mut groups, &ws[i], Ghost(kept(all.take(i as int), short)));
        }
        i += 1;
    }
    proof {
        lemma_take_all(all);
    }
    let ghost every = views(groups@);
    let mut out: Vec<EphemeralGroup> = Vec::new();
    let mut j: usize = 0;
    assert(views(out@) =~= kept(every.take(0), is_large(min as int)));
    while j < groups.len()
        invariant
            every == views(groups@),
            j <= groups.len(),
            views(out@) == kept(every.take(j as int), is_large(min as int)),
        decreases groups.len() - j,
    {
        proof {
            lemma_take_succ(every, j as int);
        }
        if groups[j].distinct_ids.len() >= min {
            out.push(groups[j].clone());
        }
        j += 1;
    }
    proof {
        lemma_take_all(every);
    }
    out
}

fn is_in_ephemeral(groups: &Vec<EphemeralGroup>, id: u32) -> (r: bool)
    ensures
        r == in_ephemeral(views(groups@), id),
{
    let mut i: usize = 0;
    while i < groups.len()
        invariant
            i <= groups.len(),
            forall|j: int|
                0 <= j < i ==> !(#[trigger] views(groups@)[j]).distinct_ids.contains(id),
        decreases groups.len() - i,
    {
        if has_id(&groups[i].distinct_ids, id) {
            assert(views(groups@)[i as int].distinct_ids.contains(id));
            return true;
        }
        i += 1;
    }
    false
}

fn is_in_temporal(groups: &Vec<TemporalGroup>, id: u32) -> (r: bool)
    ensures
        r == in_temporal(views(groups@), id),
{
    let mut i: usize = 0;
    while i < groups.len()
        invariant
            i <= groups.len(),
            forall|j: int|
                0 <= j < i ==> !(#[trigger] views(groups@)[j]).distinct_ids.contains(id),
        decreases groups.len() - i,
    {
        if has_id(&groups[i].distinct_ids, id) {
            assert(views(groups@)[i as int].distinct_ids.contains(id));
            return true;
        }
        i += 1;
    }
    false
}

fn without_ephemeral(ws: &Vec<KeyedWindow>, groups: &Vec<EphemeralGroup>) -> (r: Vec<KeyedWindow>)
    ensures
        views(r@) == kept(views(ws@), not_ephemeral(views(groups@))),
{
    broadcast use group_views;

    let ghost all = views(ws@);
    let ghost keep = not_ephemeral(views(groups@));
    let mut out: Vec<KeyedWindow> = Vec::new();
    let mut i: usize = 0;
    assert(views(out@) =~= kept(all.take(0), keep));
    while i < ws.len()
        invariant
            all == views(ws@),
            keep == not_ephemeral(views(groups@)),
            i <= ws.len(),
            views(out@) == kept(all.take(i as int), keep),
        decreases ws.len() - i,
    {
        proof {
            lemma_take_succ(all, i as int);
        }
        if !is_in_ephemeral(groups, ws[i].window.window_id) {
            out.push(ws[i].clone());
        }
        i += 1;
    }
    proof {
        lemma_take_all(all);
    }
    out
}

proof fn lemma_windows_only_push(s: Seq<KeyedView>, w: KeyedView)
    ensures
        windows_only(s.push(w)) == windows_only(s).push(w.window),
{
    assert(windows_only(s.push(w)) =~= windows_only(s).push(w.window));
}

fn without_temporal(ws: &Vec<KeyedWindow>, groups: &Vec<TemporalGroup>) -> (r: Vec<WindowActivity>)
    ensures
        views(r@) == windows_only(kept(views(ws@), not_temporal(views(groups@)))),
{
    broadcast use group_views;

    let ghost all = views(ws@);
    let ghost keep = not_temporal(views(groups@));
    let mut out: Vec<WindowActivity> = Vec::new();
    let mut i: usize = 0;
    assert(views(out@) =~= windows_only(kept(all.take(0), keep)));
    while i < ws.len()
        invariant
            all == views(ws@),
            keep == not_temporal(views(groups@)),
            i <= ws.len(),
            views(out@) == windows_only(kept(all.take(i as int), keep)),
        decreases ws.len() - i,
    {
        proof {
            lemma_take_succ(all, i as int);
        }
        if !is_in_temporal(groups, ws[i].window.window_id) {
            out.push(ws[i].window.clone());
            proof {
                lemma_windows_only_push(kept(all.take(i as int), keep), all[i as int]);
            }
        }
        i += 1;
    }
    proof {
        lemma_take_all(all);
    }
    out
}

fn is_near(a: &WindowActivity, b: &WindowActivity) -> (r: bool)
    ensures
        r == near(a@, b@),
{
    let d = a.last_seen.since(&b.last_seen);
    d.secs < NEAR_SECS || (d.secs == NEAR_SECS && d.nanos <= 0)
}

/// The group of windows that share a title and were in use around the same time.
pub fn build_temporal_group(title_key: &str, windows: &Vec<WindowActivity>) -> (r: TemporalGroup)
    requires
        windows.len() >= 2,
        windows.len() <= u32::MAX,
    ensures
        r@ == temporal_of(title_key@, views(windows@)),
{
    let ghost all = views(windows@);
    let mut distinct_ids: Vec<u32> = Vec::new();
    let mut total: u64 = 0;
    let mut max_duration: u64 = 0;
    let mut first_seen = windows[0].first_seen;
    let mut last_seen = windows[0].last_seen;
    let mut i: usize = 0;
    assert(all.take(0).map_values(window_id()) =~= Seq::empty());
    while i < windows.len()
        invariant
            all == views(windows@),
            2 <= windows.len(),
            i <= windows.len(),
            distinct_ids@ == distinct(all.take(i as int).map_values(window_id())),
            total == saturated(sum_of(all.take(i as int), window_secs())),
            0 <= sum_of(all.take(i as int), window_secs()),
            max_duration == max_of(all.take(i as int), window_secs()),
            i == 0 ==> first_seen == all[0].first_seen && last_seen == all[0].last_seen,
            i > 0 ==> first_seen == earliest(all.take(i as int), window_first()) && last_seen
                == latest(all.take(i as int), window_seen()),
        decreases windows.len() - i,
    {
        let ghost upto = all.take(i + 1);
        proof {
            lemma_take_succ(all, i as int);
            assert(upto.map_values(window_id()).drop_last() =~= all.take(i as int).map_values(
                window_id(),
            ));
        }
        let w = &windows[i];
        push_distinct(&mut distinct_ids, w.window_id);
        total = total.saturating_add(w.duration_seconds);
        if w.duration_seconds > max_duration {
            max_duration = w.duration_seconds;
        }
        if w.first_seen.is_before(&first_seen) {
            first_seen = w.first_seen;
        }
        if last_seen.is_before(&w.last_seen) {
            last_seen = w.last_seen;
        }
        i += 1;
    }
    proof {
        lemma_take_all(all);
        lemma_distinct(all.map_values(window_id()));
    }
    let occurrence: u32 = distinct_ids.len() as u32;
    TemporalGroup {
        title_key: title_key.to_string(),
        distinct_ids,
        occurrence_count: occurrence,
        total_duration_seconds: total,
        max_duration_seconds: max_duration,
        first_seen,
        last_seen,
        anchor_last_seen: last_seen,
    }
}

proof fn lemma_clusters_end(ws: Seq<WindowView>)
    requires
        ws.len() > 0,
    ensures
        clusters(ws).len() > 0,
        clusters(ws).last().len() > 0,
        clusters(ws).last().last() == ws.last(),
        clusters(ws).last().len() <= ws.len(),
    decreases ws.len(),
{
    if ws.len() > 1 {
        lemma_clusters_end(ws.drop_last());
    }
}

/// The groups among windows that share a title and are in order of recency.
fn group_sorted(title_key: &str, ws: &Vec<WindowActivity>) -> (r: Vec<TemporalGroup>)
    requires
        ws.len() <= u32::MAX,
    ensures
        views(r@) == shared(title_key@, clusters(views(ws@))),
{
    broadcast use group_views;

    let ghost all = views(ws@);
    let ghost key = title_key@;
    let mut out: Vec<TemporalGroup> = Vec::new();
    assert(views(out@) =~= shared(key, clusters(all.take(0))));
    if ws.len() == 0 {
        proof {
            lemma_take_all(all);
        }
        return out;
    }
    let mut current: Vec<WindowActivity> = Vec::new();
    current.push(ws[0].clone());
    let mut i: usize = 1;
    proof {
        let c = clusters(all.take(1));
        assert(views(current@) =~= all.take(1));
        assert(c =~= seq![all.take(1)]);
        assert(c.drop_last() =~= Seq::empty());
        assert(views(out@) =~= shared(key, c.drop_last()));
    }
    while i < ws.len()
        invariant
            all == views(ws@),
            key == title_key@,
            1 <= i <= ws.len() <= u32::MAX,
            0 < current.len() <= i,
            views(current@) == clusters(all.take(i as int)).last(),
            clusters(all.take(i as int)).len() > 0,
            views(out@) == shared(key, clusters(all.take(i as int)).drop_last()),
        decreases ws.len() - i,
    {
        let ghost before = clusters(all.take(i as int));
        let ghost upto = all.take(i + 1);
        proof {
            lemma_take_succ(all, i as int);
            assert(upto[upto.len() - 2] == all[i - 1]);
            assert(upto.last() == all[i as int]);
        }
        if is_near(&ws[i - 1], &ws[i]) {
            current.push(ws[i].clone());
            proof {
                let c = clusters(upto);
                assert(c.drop_last() =~= before.drop_last());
                assert(views(current@) =~= c.last());
            }
        } else {
            if current.len() >= 2 {
                out.push(build_temporal_group(title_key, &current));
            }
            current = Vec::new();
            current.push(ws[i].clone());
            proof {
                let c = clusters(upto);
                assert(c.drop_last() =~= before);
                assert(views(current@) =~= c.last());
                assert(views(out@) =~= shared(key, before));
            }
        }
        i += 1;
    }
    if current.len() >= 2 {
        out.push(build_temporal_group(title_key, &current));
    }
    proof {
        lemma_take_all(all);
    }
    out
}

fn windows_titled(ws: &Vec<KeyedWindow>, key: &String) -> (r: Vec<WindowActivity>)
    ensures
        views(r@) == windows_only(members(views(ws@), key_of(), key@)),
        r.len() <= ws.len(),
{
    broadcast use group_views;

    let ghost all = views(ws@);
    let mut out: Vec<WindowActivity> = Vec::new();
    let mut i: usize = 0;
    assert(views(out@) =~= windows_only(members(all.take(0), key_of(), key@)));
    while i < ws.len()
        invariant
            all == views(ws@),
            i <= ws.len(),
            out.len() <= i,
            views(out@) == windows_only(members(all.take(i as int), key_of(), key@)),
        decreases ws.len() - i,
    {
        proof {
            lemma_take_succ(all, i as int);
        }
        if ws[i].key == *key {
            out.push(ws[i].window.clone());
            proof {
                lemma_windows_only_push(members(all.take(i as int), key_of(), key@), all[i as int]);
            }
        }
        i += 1;
    }
    proof {
        lemma_take_all(all);
    }
    out
}

fn has_key(keys: &Vec<String>, key: &String) -> (r: bool)
    ensures
        r == views(keys@).contains(key@),
{
    let mut i: usize = 0;
    while i < keys.len()
        invariant
            i <= keys.len(),
            forall|j: int| 0 <= j < i ==> (#[trigger] views(keys@)[j]) != key@,
        decreases keys.len() - i,
    {
        if keys[i] == *key {
            assert(views(keys@)[i as int] == key@);
            return true;
        }
        i += 1;
    }
    false
}

/// The groups of windows that share a title and were in use around the same time.
fn group_near(ws: &Vec<KeyedWindow>) -> (r: Vec<TemporalGroup>)
    requires
        ws.len() <= u32::MAX,
    ensures
        views(r@) == temporal_groups(views(ws@)),
{
    broadcast use group_views;

    let ghost all = views(ws@);
    let mut keys: Vec<String> = Vec::new();
    let mut out: Vec<TemporalGroup> = Vec::new();
    let mut i: usize = 0;
    assert(views(keys@) =~= keys_of(all.take(0), key_of()));
    assert(views(out@) =~= temporal_of_titles(all, keys_of(all.take(0), key_of())));
    while i < ws.len()
        invariant
            all == views(ws@),
            i <= ws.len() <= u32::MAX,
            views(keys@) == keys_of(all.take(i as int), key_of()),
            views(out@) == temporal_of_titles(all, views(keys@)),
        decreases ws.len() - i,
    {
        proof {
            lemma_take_succ(all, i as int);
            assert(all.take(i + 1).map_values(key_of()).drop_last() =~= all.take(
                i as int,
            ).map_values(key_of()));
        }
        if !has_key(&keys, &ws[i].key) {
            let titled = windows_titled(ws, &ws[i].key);
            let ghost titled_views = views(titled@);
            let sorted = sort_by_recency(titled);
            proof {
                lemma_by_recency_views(titled@, seen_by::<WindowActivity>(), window_seen());
                law_by_recency_sorts(titled@, seen_by::<WindowActivity>());
            }
            let mut found = group_sorted(ws[i].key.as_str(), &sorted);
            let ghost done = views(keys@);
            let ghost found_views = views(found@);
            let ghost out_views = views(out@);
            out.append(&mut found);
            keys.push(ws[i].key.clone());
            proof {
                let k = ws@[i as int].key@;
                assert(views(keys@) == done.push(k));
                assert(done.push(k).drop_last() =~= done);
                assert(found_views == temporal_of_title(k, members(all, key_of(), k)));
                assert(views(out@) =~= out_views + found_views);
            }
        }
        i += 1;
    }
    proof {
        lemma_take_all(all);
    }
    out
}

/// Keeps the `max` windows seen last, where there are more than that; 0 stands for no limit.
fn trim_windows(windows: Vec<WindowActivity>, max: usize) -> (r: Vec<WindowActivity>)
    ensures
        views(r@) == most_recent(views(windows@), max as int),
{
    if max > 0 && windows.len() > max {
        proof {
            lemma_by_recency_views(windows@, seen_by::<WindowActivity>(), window_seen());
            law_by_recency_sorts(windows@, seen_by::<WindowActivity>());
        }
        let mut sorted = sort_by_recency(windows);
        let ghost all = sorted@;
        sorted.truncate(max);
        assert(sorted@ =~= all.take(max as int));
        assert(views(sorted@) =~= views(all).take(max as int));
        sorted
    } else {
        windows
    }
}

/// Sorts the windows of a process into groups. Windows with the same title, each in use for less
/// than `limit` seconds, form a group where there are at least `min` of them. Of the others,
/// those with the same title that were last seen at most an hour apart form a group. Of what is
/// left the `max` windows seen last are kept.
pub fn group_windows(ws: &Vec<KeyedWindow>, limit: u64, min: usize, max: usize) -> (r: WindowGroups)
    requires
        windows_fit(views(ws@)),
    ensures
        views(r.ephemeral_groups@) == ephemeral_groups(views(ws@), limit as int, min as int),
        views(r.temporal_groups@) == temporal_groups(
            lasting(views(ws@), limit as int, min as int),
        ),
        views(r.windows@) == most_recent(
            windows_only(ungrouped(views(ws@), limit as int, min as int)),
            max as int,
        ),
{
    let ephemeral_groups = group_short(ws, limit, min);
    let rest = without_ephemeral(ws, &ephemeral_groups);
    proof {
        lemma_kept(views(ws@), not_ephemeral(views(ephemeral_groups@)));
        assert(views(rest@).len() == rest@.len());
    }
    let temporal_groups = group_near(&rest);
    let windows = trim_windows(without_temporal(&rest, &temporal_groups), max);
    WindowGroups { windows, ephemeral_groups, temporal_groups }
}

} // verus!
