//! What the stretches that may have been sleep have to do with the records: none is missed, none
//! is made up, short pauses do not end one, and long ones do.

use crate::records::RecordView;
use crate::sleep::{
    by_start, candidates, candidates_of, clipped, is_candidate, is_locked_record, merged, place,
    runs_of, segments, with_record, Period, Runs,
};
use crate::text::same_ignoring_ascii_case;
use crate::time::{law_instants_are_ordered, law_time_is_a_line, Timestamp};
use vstd::prelude::*;

verus! {

/// The lock screen had the focus, in whatever state the record is.
pub open spec fn behind_lock_screen(r: RecordView) -> bool {
    r.focus_info is Some && same_ignoring_ascii_case(r.focus_info->0.app_name, "loginwindow"@)
}

/// When the record ended, or `now` where it did not.
pub open spec fn end_of(r: RecordView, now: Timestamp) -> Timestamp {
    if r.end_time is Some {
        r.end_time->0
    } else {
        now
    }
}

/// No instant of the records lies in a leap second.
pub open spec fn plain_times(rs: Seq<RecordView>, now: Timestamp) -> bool {
    forall|i: int|
        0 <= i < rs.len() ==> (#[trigger] rs[i]).start_time.is_plain() && end_of(
            rs[i],
            now,
        ).is_plain()
}

/// The records come in the order of their starts, as they are stored.
pub open spec fn ordered(rs: Seq<RecordView>) -> bool {
    forall|i: int, j: int|
        0 <= i < j < rs.len() ==> !(#[trigger] rs[j]).start_time.before(
            (#[trigger] rs[i]).start_time,
        )
}

/// The record starts no earlier than those right before it behind the lock screen.
pub open spec fn not_before_its_run(rs: Seq<RecordView>, i: int) -> bool {
    forall|a: int|
        0 <= a <= i && (forall|k: int| a <= k <= i ==> behind_lock_screen(#[trigger] rs[k]))
            ==> !rs[i].start_time.before((#[trigger] rs[a]).start_time)
}

/// The records follow one another, as they are cut: each ends after it starts and before the next.
pub open spec fn following(rs: Seq<RecordView>, now: Timestamp) -> bool {
    &&& forall|i: int|
        0 <= i < rs.len() ==> !end_of(#[trigger] rs[i], now).before(rs[i].start_time)
    &&& forall|i: int, j: int|
        0 <= i < j < rs.len() ==> !(#[trigger] rs[j]).start_time.before(
            end_of(#[trigger] rs[i], now),
        )
}

/// One period lies within another.
pub open spec fn within(inner: Period, outer: Period) -> bool {
    !inner.start.before(outer.start) && !outer.end.before(inner.end)
}

/// The part that lies in the window of the time from one instant to another.
pub open spec fn part(start: Timestamp, end: Timestamp, window: Period) -> Period {
    Period {
        start: if start.before(window.start) {
            window.start
        } else {
            start
        },
        end: if window.end.before(end) {
            window.end
        } else {
            end
        },
    }
}

/// The time is long enough to count as sleep.
pub open spec fn long_enough(p: Period, min: int) -> bool {
    p.end.secs_since(p.start) > 0 && p.end.secs_since(p.start) >= min
}

/// The period starts with a record behind the lock screen and ends with one.
spec fn bounded(p: Period, rs: Seq<RecordView>, now: Timestamp) -> bool {
    &&& exists|i: int|
        0 <= i < rs.len() && behind_lock_screen(#[trigger] rs[i]) && p.start == rs[i].start_time
    &&& exists|j: int|
        0 <= j < rs.len() && behind_lock_screen(#[trigger] rs[j]) && p.end == end_of(rs[j], now)
}

spec fn span(r: RecordView, now: Timestamp) -> Period {
    Period { start: r.start_time, end: end_of(r, now) }
}

spec fn covered(p: Period, s: Seq<Period>) -> bool {
    exists|k: int| 0 <= k < s.len() && within(p, #[trigger] s[k])
}

spec fn starts_in(p: Period, s: Seq<Period>) -> bool {
    exists|k: int| 0 <= k < s.len() && (#[trigger] s[k]).start == p.start
}

spec fn ends_in(p: Period, s: Seq<Period>) -> bool {
    exists|k: int| 0 <= k < s.len() && (#[trigger] s[k]).end == p.end
}

proof fn lemma_behind(r: RecordView)
    ensures
        is_locked_record(r) == behind_lock_screen(r),
{
}

proof fn lemma_bounded_push(p: Period, rs: Seq<RecordView>, r: RecordView, now: Timestamp)
    requires
        bounded(p, rs, now),
    ensures
        bounded(p, rs.push(r), now),
{
    let i = choose|i: int|
        0 <= i < rs.len() && behind_lock_screen(#[trigger] rs[i]) && p.start == rs[i].start_time;
    let j = choose|j: int|
        0 <= j < rs.len() && behind_lock_screen(#[trigger] rs[j]) && p.end == end_of(rs[j], now);
    assert(rs.push(r)[i] == rs[i]);
    assert(rs.push(r)[j] == rs[j]);
}

/// The run that is still open started with a record since which all were behind the lock screen.
spec fn open_from(rs: Seq<RecordView>, now: Timestamp, a: int) -> bool {
    &&& 0 <= a < rs.len()
    &&& runs_of(rs, now).open is Some
    &&& runs_of(rs, now).open->0.start == rs[a].start_time
    &&& forall|k: int| a <= k < rs.len() ==> behind_lock_screen(#[trigger] rs[k])
}

/// Each record behind the lock screen lies in one of the segments, and each segment starts and
/// ends with such a record.
proof fn lemma_segments(rs: Seq<RecordView>, now: Timestamp)
    ensures
        forall|k: int|
            0 <= k < segments(rs, now).len() ==> #[trigger] bounded(segments(rs, now)[k], rs, now),
        forall|i: int|
            0 <= i < rs.len() && behind_lock_screen(rs[i]) && not_before_its_run(rs, i)
                ==> #[trigger] covered(span(rs[i], now), segments(rs, now)),
        runs_of(rs, now).open is Some ==> exists|a: int| #[trigger] open_from(rs, now, a),
    decreases rs.len(),
{
    if rs.len() > 0 {
        let b = rs.drop_last();
        let r = rs.last();
        assert(rs =~= b.push(r));
        assert(forall|i: int| 0 <= i < b.len() ==> b[i] == rs[i]);
        lemma_segments(b, now);
        lemma_behind(r);
        let sb = segments(b, now);
        let s = segments(rs, now);
        let n = rs.len() - 1;
        assert forall|k: int| 0 <= k < sb.len() implies #[trigger] bounded(sb[k], rs, now) by {
            lemma_bounded_push(sb[k], b, r, now);
        }
        if !behind_lock_screen(r) {
            assert(s =~= sb);
            assert forall|i: int|
                0 <= i < rs.len() && behind_lock_screen(rs[i]) && not_before_its_run(
                    rs,
                    i,
                ) implies #[trigger] covered(span(rs[i], now), s) by {
                assert(b[i] == rs[i]);
                lemma_run_shorter(rs, i);
                assert(covered(span(b[i], now), sb));
            }
        } else {
            let end = end_of(r, now);
            assert(behind_lock_screen(rs[n]));
            match runs_of(b, now).open {
                None => {
                    let p = Period { start: r.start_time, end };
                    assert(s =~= sb.push(p));
                    assert(bounded(p, rs, now));
                    assert(open_from(rs, now, n));
                    assert forall|i: int|
                        0 <= i < rs.len() && behind_lock_screen(rs[i]) && not_before_its_run(
                            rs,
                            i,
                        ) implies #[trigger] covered(span(rs[i], now), s) by {
                        if i < n {
                            assert(b[i] == rs[i]);
                            lemma_run_shorter(rs, i);
                            assert(covered(span(b[i], now), sb));
                            let k = choose|k: int|
                                0 <= k < sb.len() && within(span(rs[i], now), #[trigger] sb[k]);
                            assert(s[k] == sb[k]);
                        } else {
                            law_instants_are_ordered(p.start, p.end, p.end);
                            law_instants_are_ordered(p.end, p.end, p.end);
                            assert(within(span(rs[i], now), s[sb.len() as int]));
                        }
                    }
                },
                Some(q) => {
                    let p = Period { start: q.start, end: q.end.later(end) };
                    let m = sb.len() - 1;
                    assert(sb[m] == q);
                    assert(s =~= sb.update(m, p));
                    law_instants_are_ordered(q.end, end, end);
                    assert(bounded(q, rs, now));
                    let a = choose|a: int| #[trigger] open_from(b, now, a);
                    assert forall|k: int| a <= k < rs.len() implies behind_lock_screen(
                        #[trigger] rs[k],
                    ) by {
                        if k < n {
                            assert(b[k] == rs[k]);
                        }
                    }
                    assert(open_from(rs, now, a));
                    assert(bounded(p, rs, now)) by {
                        if q.end.before(end) {
                            assert(p.end == end_of(rs[n], now));
                        }
                    }
                    assert forall|k: int| 0 <= k < s.len() implies #[trigger] bounded(s[k],
                        rs,
                        now,
                    ) by {
                        if k < m {
                            assert(s[k] == sb[k]);
                        }
                    }
                    assert forall|i: int|
                        0 <= i < rs.len() && behind_lock_screen(rs[i]) && not_before_its_run(
                            rs,
                            i,
                        ) implies #[trigger] covered(span(rs[i], now), s) by {
                        if i < n {
                            assert(b[i] == rs[i]);
                            lemma_run_shorter(rs, i);
                            assert(covered(span(b[i], now), sb));
                            let k = choose|k: int|
                                0 <= k < sb.len() && within(span(rs[i], now), #[trigger] sb[k]);
                            if k == m {
                                law_instants_are_ordered(p.end, q.end, end_of(rs[i], now));
                                assert(within(span(rs[i], now), s[m]));
                            } else {
                                assert(s[k] == sb[k]);
                            }
                        } else {
                            assert(!rs[n].start_time.before(rs[a].start_time));
                            law_instants_are_ordered(r.start_time, q.start, q.start);
                            assert(within(span(rs[i], now), s[m]));
                        }
                    }
                },
            }
        }
    }
}

proof fn lemma_run_shorter(rs: Seq<RecordView>, i: int)
    requires
        0 <= i < rs.len() - 1,
        not_before_its_run(rs, i),
    ensures
        not_before_its_run(rs.drop_last(), i),
{
    let b = rs.drop_last();
    assert forall|a: int|
        0 <= a <= i && (forall|k: int| a <= k <= i ==> behind_lock_screen(
            #[trigger] b[k],
        )) implies !b[i].start_time.before((#[trigger] b[a]).start_time) by {
        assert forall|k: int| a <= k <= i implies behind_lock_screen(#[trigger] rs[k]) by {
            assert(b[k] == rs[k]);
        }
        assert(!rs[i].start_time.before(rs[a].start_time));
    }
}

proof fn lemma_place(s: Seq<Period>, t: Timestamp)
    ensures
        0 <= place(s, t) <= s.len(),
        forall|i: int| 0 <= i < place(s, t) ==> (#[trigger] s[i]).start.before(t),
        place(s, t) < s.len() ==> !s[place(s, t)].start.before(t),
    decreases s.len(),
{
    if s.len() > 0 && s[0].start.before(t) {
        let r = s.drop_first();
        lemma_place(r, t);
        assert forall|i: int| 0 <= i < place(s, t) implies (#[trigger] s[i]).start.before(t) by {
            if i > 0 {
                assert(r[i - 1] == s[i]);
            }
        }
    }
}

spec fn sorted(s: Seq<Period>) -> bool {
    forall|i: int, j: int|
        0 <= i < j < s.len() ==> !(#[trigger] s[j]).start.before((#[trigger] s[i]).start)
}

proof fn lemma_by_start(s: Seq<Period>)
    ensures
        sorted(by_start(s)),
        by_start(s).len() == s.len(),
        forall|p: Period| #[trigger] by_start(s).contains(p) <==> s.contains(p),
    decreases s.len(),
{
    if s.len() > 0 {
        let tail = s.drop_first();
        let rest = by_start(tail);
        let e = s[0];
        lemma_by_start(tail);
        lemma_place(rest, e.start);
        let n = place(rest, e.start);
        let r = rest.insert(n, e);
        assert forall|i: int, j: int| 0 <= i < j < r.len() implies !(#[trigger] r[j]).start.before(
            (#[trigger] r[i]).start,
        ) by {
            if i == n {
                assert(r[j] == rest[j - 1]);
                law_instants_are_ordered(rest[j - 1].start, rest[n].start, e.start);
                law_instants_are_ordered(rest[n].start, rest[j - 1].start, e.start);
                if j - 1 > n {
                    assert(!rest[j - 1].start.before(rest[n].start));
                }
            } else if j == n {
                assert(r[i] == rest[i]);
            } else {
                let a = if i < n {
                    i
                } else {
                    i - 1
                };
                let b = if j < n {
                    j
                } else {
                    j - 1
                };
                assert(r[i] == rest[a] && r[j] == rest[b]);
            }
        }
        assert forall|p: Period| #[trigger] r.contains(p) <==> s.contains(p) by {
            if r.contains(p) {
                let i = choose|i: int| 0 <= i < r.len() && r[i] == p;
                if i == n {
                    assert(s[0] == p);
                } else {
                    let a = if i < n {
                        i
                    } else {
                        i - 1
                    };
                    assert(rest[a] == p);
                    assert(rest.contains(p));
                    let j = choose|j: int| 0 <= j < tail.len() && tail[j] == p;
                    assert(s[j + 1] == p);
                }
            }
            if s.contains(p) {
                let j = choose|j: int| 0 <= j < s.len() && s[j] == p;
                if j == 0 {
                    assert(r[n] == p);
                } else {
                    assert(tail[j - 1] == p);
                    assert(tail.contains(p));
                    assert(rest.contains(p));
                    let a = choose|a: int| 0 <= a < rest.len() && rest[a] == p;
                    assert(r[if a < n {
                        a
                    } else {
                        a + 1
                    }] == p);
                }
            }
        }
    }
}

/// Drawn together, the periods cover what they covered before, and start and end where one of
/// them did.
proof fn lemma_merged(s: Seq<Period>)
    requires
        sorted(s),
    ensures
        sorted(merged(s)),
        s.len() > 0 ==> merged(s).len() > 0 && !s.last().start.before(merged(s).last().start),
        forall|k: int| 0 <= k < s.len() ==> #[trigger] covered(s[k], merged(s)),
        forall|m: int| 0 <= m < merged(s).len() ==> #[trigger] starts_in(merged(s)[m], s),
        forall|m: int| 0 <= m < merged(s).len() ==> #[trigger] ends_in(merged(s)[m], s),
    decreases s.len(),
{
    if s.len() > 0 {
        let b = s.drop_last();
        let p = s.last();
        let n = s.len() - 1;
        assert(forall|i: int| 0 <= i < b.len() ==> b[i] == s[i]);
        lemma_merged(b);
        let mb = merged(b);
        let r = merged(s);
        assert forall|m: int| 0 <= m < mb.len() implies !p.start.before(
            (#[trigger] mb[m]).start,
        ) by {
            assert(starts_in(mb[m], b));
            let k = choose|k: int| 0 <= k < b.len() && (#[trigger] b[k]).start == mb[m].start;
            assert(s[k] == b[k]);
            assert(!s[n].start.before(s[k].start));
        }
        if mb.len() > 0 && 0 <= p.start.secs_since(mb.last().end) <= crate::sleep::MERGE_GAP_SECS {
            let l = mb.len() - 1;
            let q = Period { start: mb[l].start, end: mb[l].end.later(p.end) };
            assert(r =~= mb.update(l, q));
            law_instants_are_ordered(mb[l].end, p.end, p.end);
            assert forall|i: int, j: int| 0 <= i < j < r.len() implies !(
            #[trigger] r[j]).start.before((#[trigger] r[i]).start) by {
                assert(r[i].start == mb[i].start && r[j].start == mb[j].start);
            }
            assert forall|k: int| 0 <= k < s.len() implies #[trigger] covered(s[k], r) by {
                if k < n {
                    assert(covered(b[k], mb));
                    assert(b[k] == s[k]);
                    let m = choose|m: int| 0 <= m < mb.len() && within(s[k], #[trigger] mb[m]);
                    if m == l {
                        law_instants_are_ordered(q.end, mb[l].end, s[k].end);
                        assert(within(s[k], r[l]));
                    } else {
                        assert(within(s[k], r[m]));
                    }
                } else {
                    assert(within(s[k], r[l]));
                }
            }
            assert forall|m: int| 0 <= m < r.len() implies #[trigger] starts_in(r[m], s) by {
                assert(m < mb.len() ==> starts_in(mb[m], b));
                let k = choose|k: int| 0 <= k < b.len() && (#[trigger] b[k]).start == mb[m].start;
                assert(s[k].start == r[m].start);
            }
            assert forall|m: int| 0 <= m < r.len() implies #[trigger] ends_in(r[m], s) by {
                assert(m < mb.len() ==> ends_in(mb[m], b));
                let k = choose|k: int| 0 <= k < b.len() && (#[trigger] b[k]).end == mb[m].end;
                if m == l && mb[l].end.before(p.end) {
                    assert(s[n].end == r[m].end);
                } else {
                    assert(s[k].end == r[m].end);
                }
            }
        } else {
            assert(r =~= mb.push(p));
            law_instants_are_ordered(p.start, p.end, p.end);
            law_instants_are_ordered(p.end, p.end, p.end);
            assert forall|i: int, j: int| 0 <= i < j < r.len() implies !(
            #[trigger] r[j]).start.before((#[trigger] r[i]).start) by {
                assert(r[i] == mb[i]);
                if j < mb.len() {
                    assert(r[j] == mb[j]);
                }
            }
            assert forall|k: int| 0 <= k < s.len() implies #[trigger] covered(s[k], r) by {
                if k < n {
                    assert(covered(b[k], mb));
                    assert(b[k] == s[k]);
                    let m = choose|m: int| 0 <= m < mb.len() && within(s[k], #[trigger] mb[m]);
                    assert(within(s[k], r[m]));
                } else {
                    assert(within(s[k], r[mb.len() as int]));
                }
            }
            assert forall|m: int| 0 <= m < r.len() implies #[trigger] starts_in(r[m], s) by {
                assert(m < mb.len() ==> starts_in(mb[m], b));
                if m < mb.len() {
                    let k = choose|k: int|
                        0 <= k < b.len() && (#[trigger] b[k]).start == mb[m].start;
                    assert(s[k].start == r[m].start);
                } else {
                    assert(s[n].start == r[m].start);
                }
            }
            assert forall|m: int| 0 <= m < r.len() implies #[trigger] ends_in(r[m], s) by {
                assert(m < mb.len() ==> ends_in(mb[m], b));
                if m < mb.len() {
                    let k = choose|k: int| 0 <= k < b.len() && (#[trigger] b[k]).end == mb[m].end;
                    assert(s[k].end == r[m].end);
                } else {
                    assert(s[n].end == r[m].end);
                }
            }
        }
    }
}

/// A period gives a candidate exactly where its part in the window is long enough.
proof fn lemma_candidates(s: Seq<Period>, window: Period, min: int)
    requires
        sorted(s),
    ensures
        sorted(candidates_of(s, window, min)),
        candidates_of(s, window, min).len() > 0 ==> s.len() > 0 && !s.last().start.later(
            window.start,
        ).before(candidates_of(s, window, min).last().start),
        forall|m: int|
            0 <= m < s.len() && long_enough(
                part((#[trigger] s[m]).start, s[m].end, window),
                min,
            ) ==> candidates_of(s, window, min).contains(part(s[m].start, s[m].end, window)),
        forall|c: int|
            #![trigger candidates_of(s, window, min)[c]]
            0 <= c < candidates_of(s, window, min).len() ==> exists|m: int|
                #![trigger s[m]]
                0 <= m < s.len() && candidates_of(s, window, min)[c] == part(
                    s[m].start,
                    s[m].end,
                    window,
                ) && long_enough(part(s[m].start, s[m].end, window), min),
    decreases s.len(),
{
    if s.len() > 0 {
        let b = s.drop_last();
        let n = s.len() - 1;
        assert(forall|i: int| 0 <= i < b.len() ==> b[i] == s[i]);
        lemma_candidates(b, window, min);
        let cb = candidates_of(b, window, min);
        let r = candidates_of(s, window, min);
        let p = s.last();
        law_instants_are_ordered(p.start, window.start, window.start);
        law_instants_are_ordered(p.end, window.end, window.end);
        assert(clipped(p, window) == part(p.start, p.end, window));
        assert(is_candidate(p, window, min) == long_enough(part(p.start, p.end, window), min));
        if cb.len() > 0 {
            let q = b.last().start;
            assert(!s[n].start.before(s[n - 1].start));
            law_instants_are_ordered(q, window.start, p.start);
            law_instants_are_ordered(p.start, q, window.start);
            law_instants_are_ordered(
                p.start.later(window.start),
                q.later(window.start),
                cb.last().start,
            );
            law_instants_are_ordered(
                q.later(window.start),
                p.start.later(window.start),
                cb.last().start,
            );
            assert(!p.start.later(window.start).before(cb.last().start));
        }
        law_instants_are_ordered(p.start.later(window.start), p.start, p.start);
        assert forall|i: int, j: int| 0 <= i < j < r.len() implies !(#[trigger] r[j]).start.before(
            (#[trigger] r[i]).start,
        ) by {
            assert(r[i] == cb[i]);
            if j < cb.len() {
                assert(r[j] == cb[j]);
            } else {
                let l = cb.len() - 1;
                if i < l {
                    assert(!cb[l].start.before(cb[i].start));
                }
                law_instants_are_ordered(r[j].start, cb[l].start, cb[i].start);
                law_instants_are_ordered(r[j].start, cb[i].start, cb[l].start);
            }
        }
        assert forall|m: int| 0 <= m < s.len() && long_enough(
            part((#[trigger] s[m]).start, s[m].end, window),
            min,
        ) implies r.contains(part(s[m].start, s[m].end, window)) by {
            if m < n {
                assert(b[m] == s[m]);
                let c = choose|c: int|
                    0 <= c < cb.len() && cb[c] == part(s[m].start, s[m].end, window);
                assert(r[c] == cb[c]);
            } else {
                assert(r[cb.len() as int] == part(s[m].start, s[m].end, window));
            }
        }
        assert forall|c: int| #![trigger r[c]] 0 <= c < r.len() implies exists|m: int|
            #![trigger s[m]]
            0 <= m < s.len() && r[c] == part(s[m].start, s[m].end, window) && long_enough(
                part(s[m].start, s[m].end, window),
                min,
            ) by {
            if c < cb.len() {
                assert(r[c] == cb[c]);
                let m = choose|m: int|
                    #![trigger b[m]]
                    0 <= m < b.len() && cb[c] == part(b[m].start, b[m].end, window)
                        && long_enough(part(b[m].start, b[m].end, window), min);
                assert(s[m] == b[m]);
            } else {
                assert(s[n] == p);
            }
        }
    }
}

/// What lies within a longer time has no longer part in the window.
proof fn lemma_parts_grow(inner: Period, outer: Period, window: Period, min: int)
    requires
        inner.start.is_plain(),
        inner.end.is_plain(),
        outer.start.is_plain(),
        outer.end.is_plain(),
        window.start.is_plain(),
        window.end.is_plain(),
        within(inner, outer),
        long_enough(part(inner.start, inner.end, window), min),
    ensures
        within(
            part(inner.start, inner.end, window),
            part(outer.start, outer.end, window),
        ),
        long_enough(part(outer.start, outer.end, window), min),
{
    let a = part(inner.start, inner.end, window);
    let b = part(outer.start, outer.end, window);
    law_time_is_a_line(inner.start, window.start);
    law_time_is_a_line(outer.start, window.start);
    law_time_is_a_line(window.end, inner.end);
    law_time_is_a_line(window.end, outer.end);
    law_time_is_a_line(inner.start, outer.start);
    law_time_is_a_line(outer.end, inner.end);
    law_time_is_a_line(a.end, a.start);
    law_time_is_a_line(b.end, b.start);
    law_time_is_a_line(a.start, b.start);
    law_time_is_a_line(b.end, a.end);
    let x = a.end.line() - a.start.line();
    let y = b.end.line() - b.start.line();
    assert(x <= y);
    assert(x / 1_000_000_000 <= y / 1_000_000_000);
}

/// Every stretch starts with a record behind the lock screen and ends with one.
proof fn lemma_stretches(rs: Seq<RecordView>, now: Timestamp)
    ensures
        sorted(merged(by_start(segments(rs, now)))),
        forall|m: int|
            0 <= m < merged(by_start(segments(rs, now))).len() ==> #[trigger] bounded(merged(by_start(segments(rs, now)))[m],
                rs,
                now,
            ),
        forall|i: int|
            0 <= i < rs.len() && behind_lock_screen(rs[i]) && not_before_its_run(rs, i)
                ==> #[trigger] covered(span(rs[i], now), merged(by_start(segments(rs, now)))),
{
    let g = segments(rs, now);
    let s = by_start(g);
    let ms = merged(s);
    lemma_segments(rs, now);
    lemma_by_start(g);
    lemma_merged(s);
    assert forall|k: int| 0 <= k < s.len() implies #[trigger] bounded(s[k], rs, now) by {
        assert(s.contains(s[k]));
        assert(g.contains(s[k]));
        let j = choose|j: int| 0 <= j < g.len() && g[j] == s[k];
        assert(bounded(g[j], rs, now));
    }
    assert forall|m: int| 0 <= m < ms.len() implies #[trigger] bounded(ms[m], rs, now) by {
        assert(starts_in(ms[m], s) && ends_in(ms[m], s));
        let a = choose|k: int| 0 <= k < s.len() && (#[trigger] s[k]).start == ms[m].start;
        let b = choose|k: int| 0 <= k < s.len() && (#[trigger] s[k]).end == ms[m].end;
        assert(bounded(s[a], rs, now) && bounded(s[b], rs, now));
    }
    assert forall|i: int|
        0 <= i < rs.len() && behind_lock_screen(rs[i]) && not_before_its_run(
            rs,
            i,
        ) implies #[trigger] covered(span(rs[i], now), ms) by {
        let x = span(rs[i], now);
        assert(covered(x, g));
        let j = choose|j: int| 0 <= j < g.len() && within(x, #[trigger] g[j]);
        assert(g.contains(g[j]));
        assert(s.contains(g[j]));
        let k = choose|k: int| 0 <= k < s.len() && s[k] == g[j];
        assert(covered(s[k], ms));
        let m = choose|m: int| 0 <= m < ms.len() && within(s[k], #[trigger] ms[m]);
        law_instants_are_ordered(x.start, s[k].start, ms[m].start);
        law_instants_are_ordered(s[k].start, x.start, ms[m].start);
        law_instants_are_ordered(ms[m].end, s[k].end, x.end);
        law_instants_are_ordered(ms[m].end, x.end, s[k].end);
        assert(within(x, ms[m]));
    }
}

/// No sleep is missed: whatever its state, each record behind the lock screen whose part in the
/// window is long enough lies, with that part, in one of the candidates. Records may come in any
/// order, but that one right behind others starts no earlier than those.
pub proof fn law_no_sleep_is_missed(
    rs: Seq<RecordView>,
    now: Timestamp,
    window: Period,
    min: int,
    i: int,
)
    requires
        plain_times(rs, now),
        window.start.is_plain(),
        window.end.is_plain(),
        0 <= i < rs.len(),
        behind_lock_screen(rs[i]),
        not_before_its_run(rs, i),
        long_enough(part(rs[i].start_time, end_of(rs[i], now), window), min),
    ensures
        exists|c: int|
            0 <= c < candidates(rs, now, window, min).len() && within(
                part(rs[i].start_time, end_of(rs[i], now), window),
                #[trigger] candidates(rs, now, window, min)[c],
            ),
{
    let ms = merged(by_start(segments(rs, now)));
    lemma_stretches(rs, now);
    lemma_candidates(ms, window, min);
    let x = span(rs[i], now);
    assert(covered(x, ms));
    let m = choose|m: int| 0 <= m < ms.len() && within(x, #[trigger] ms[m]);
    assert(bounded(ms[m], rs, now));
    lemma_bounds_are_plain(ms[m], rs, now);
    lemma_parts_grow(x, ms[m], window, min);
    let p = part(ms[m].start, ms[m].end, window);
    assert(candidates_of(ms, window, min).contains(p));
    let c = choose|c: int|
        0 <= c < candidates_of(ms, window, min).len() && candidates_of(ms, window, min)[c] == p;
    assert(within(part(x.start, x.end, window), candidates(rs, now, window, min)[c]));
}

proof fn lemma_bounds_are_plain(p: Period, rs: Seq<RecordView>, now: Timestamp)
    requires
        bounded(p, rs, now),
        plain_times(rs, now),
    ensures
        p.start.is_plain(),
        p.end.is_plain(),
{
    let i = choose|i: int|
        0 <= i < rs.len() && behind_lock_screen(#[trigger] rs[i]) && p.start == rs[i].start_time;
    let j = choose|j: int|
        0 <= j < rs.len() && behind_lock_screen(#[trigger] rs[j]) && p.end == end_of(rs[j], now);
    assert(rs[i].start_time.is_plain() && end_of(rs[j], now).is_plain());
}

/// No sleep is made up: each candidate is long enough, and is the part in the window of the time
/// from the start of a record behind the lock screen to the end of one. The candidates come in
/// the order of their starts, in whatever order the records come.
pub proof fn law_no_sleep_is_made_up(
    rs: Seq<RecordView>,
    now: Timestamp,
    window: Period,
    min: int,
)
    ensures
        forall|c: int|
            0 <= c < candidates(rs, now, window, min).len() ==> long_enough(
                #[trigger] candidates(rs, now, window, min)[c],
                min,
            ) && exists|i: int, j: int|
                #![trigger rs[i], rs[j]]
                0 <= i < rs.len() && 0 <= j < rs.len() && behind_lock_screen(rs[i])
                    && behind_lock_screen(rs[j]) && candidates(rs, now, window, min)[c] == part(
                    rs[i].start_time,
                    end_of(rs[j], now),
                    window,
                ),
        forall|a: int, b: int|
            0 <= a < b < candidates(rs, now, window, min).len() ==> !(#[trigger] candidates(
                rs,
                now,
                window,
                min,
            )[b]).start.before((#[trigger] candidates(rs, now, window, min)[a]).start),
{
    let ms = merged(by_start(segments(rs, now)));
    let cs = candidates(rs, now, window, min);
    lemma_stretches(rs, now);
    lemma_candidates(ms, window, min);
    assert forall|c: int| 0 <= c < cs.len() implies long_enough(#[trigger] cs[c], min) && exists|
        i: int,
        j: int,
    |
        #![trigger rs[i], rs[j]]
        0 <= i < rs.len() && 0 <= j < rs.len() && behind_lock_screen(rs[i]) && behind_lock_screen(
            rs[j],
        ) && cs[c] == part(rs[i].start_time, end_of(rs[j], now), window) by {
        let m = choose|m: int|
            #![trigger ms[m]]
            0 <= m < ms.len() && cs[c] == part(ms[m].start, ms[m].end, window) && long_enough(
                part(ms[m].start, ms[m].end, window),
                min,
            );
        assert(bounded(ms[m], rs, now));
        let i = choose|i: int|
            0 <= i < rs.len() && behind_lock_screen(#[trigger] rs[i]) && ms[m].start
                == rs[i].start_time;
        let j = choose|j: int|
            0 <= j < rs.len() && behind_lock_screen(#[trigger] rs[j]) && ms[m].end == end_of(
                rs[j],
                now,
            );
        assert(cs[c] == part(rs[i].start_time, end_of(rs[j], now), window));
    }
}

/// Two records behind the lock screen with none such between them.
pub open spec fn next_behind(rs: Seq<RecordView>, i: int, j: int) -> bool {
    &&& 0 <= i < j < rs.len()
    &&& behind_lock_screen(rs[i])
    &&& behind_lock_screen(rs[j])
    &&& forall|k: int| i < k < j ==> !behind_lock_screen(#[trigger] rs[k])
}

/// Other records come between two records behind the lock screen, and they take more than an hour.
pub open spec fn long_pause(rs: Seq<RecordView>, now: Timestamp, i: int, j: int) -> bool {
    &&& next_behind(rs, i, j)
    &&& j > i + 1
    &&& rs[j].start_time.secs_since(end_of(rs[i], now)) > 3600
}

/// From one record behind the lock screen to another there is no long pause.
pub open spec fn unbroken(rs: Seq<RecordView>, now: Timestamp, i: int, j: int) -> bool {
    &&& 0 <= i <= j < rs.len()
    &&& behind_lock_screen(rs[i])
    &&& behind_lock_screen(rs[j])
    &&& forall|p: int, q: int| i <= p < q <= j ==> !#[trigger] long_pause(rs, now, p, q)
}

spec fn last_behind(rs: Seq<RecordView>) -> int
    decreases rs.len(),
{
    if rs.len() == 0 {
        -1
    } else if behind_lock_screen(rs.last()) {
        rs.len() - 1
    } else {
        last_behind(rs.drop_last())
    }
}

proof fn lemma_last_behind(rs: Seq<RecordView>)
    ensures
        -1 <= last_behind(rs) < rs.len(),
        last_behind(rs) >= 0 ==> behind_lock_screen(rs[last_behind(rs)]),
        forall|k: int| last_behind(rs) < k < rs.len() ==> !behind_lock_screen(#[trigger] rs[k]),
    decreases rs.len(),
{
    if rs.len() > 0 {
        let b = rs.drop_last();
        assert(forall|i: int| 0 <= i < b.len() ==> b[i] == rs[i]);
        lemma_last_behind(b);
    }
}

proof fn lemma_following_is_ordered(rs: Seq<RecordView>, now: Timestamp)
    requires
        following(rs, now),
    ensures
        ordered(rs),
{
    assert forall|i: int, j: int| 0 <= i < j < rs.len() implies !(#[trigger] rs[j]).start_time.before(
        (#[trigger] rs[i]).start_time,
    ) by {
        let end = end_of(rs[i], now);
        assert(!rs[j].start_time.before(end));
        assert(!end.before(rs[i].start_time));
        law_instants_are_ordered(rs[j].start_time, rs[i].start_time, end);
        law_instants_are_ordered(end, rs[i].start_time, end);
    }
}

proof fn lemma_by_start_keeps(s: Seq<Period>)
    requires
        sorted(s),
    ensures
        by_start(s) == s,
    decreases s.len(),
{
    if s.len() > 0 {
        let tail = s.drop_first();
        assert forall|i: int, j: int| 0 <= i < j < tail.len() implies !(
        #[trigger] tail[j]).start.before((#[trigger] tail[i]).start) by {
            assert(tail[i] == s[i + 1] && tail[j] == s[j + 1]);
        }
        lemma_by_start_keeps(tail);
        if tail.len() > 0 {
            assert(!s[1].start.before(s[0].start));
            assert(tail[0] == s[1]);
        }
        assert(place(tail, s[0].start) == 0);
        assert(tail.insert(0, s[0]) =~= s);
    } else {
        assert(by_start(s) =~= s);
    }
}

/// The last run goes on exactly where the last record is behind the lock screen.
proof fn lemma_open(rs: Seq<RecordView>, now: Timestamp)
    ensures
        runs_of(rs, now).open is Some <==> (rs.len() > 0 && behind_lock_screen(rs.last())),
{
    if rs.len() > 0 {
        lemma_behind(rs.last());
    }
}

proof fn lemma_segments_sorted(rs: Seq<RecordView>, now: Timestamp)
    requires
        ordered(rs),
    ensures
        sorted(segments(rs, now)),
    decreases rs.len(),
{
    if rs.len() > 0 {
        let b = rs.drop_last();
        let r = rs.last();
        assert(rs =~= b.push(r));
        assert(forall|i: int| 0 <= i < b.len() ==> b[i] == rs[i]);
        lemma_segments_sorted(b, now);
        lemma_segments(b, now);
        let sb = segments(b, now);
        let s = segments(rs, now);
        let open = runs_of(b, now).open;
        if !is_locked_record(r) {
            assert(s =~= sb);
        } else if open is Some {
            let m = sb.len() - 1;
            assert(s.len() == sb.len());
            assert forall|i: int, j: int| 0 <= i < j < s.len() implies !(
            #[trigger] s[j]).start.before((#[trigger] s[i]).start) by {
                assert(s[i].start == sb[i].start && s[j].start == sb[j].start);
            }
        } else {
            let p = Period { start: r.start_time, end: end_of(r, now) };
            assert(s =~= sb.push(p));
            assert forall|i: int, j: int| 0 <= i < j < s.len() implies !(
            #[trigger] s[j]).start.before((#[trigger] s[i]).start) by {
                assert(s[i] == sb[i]);
                if j < sb.len() {
                    assert(s[j] == sb[j]);
                } else {
                    assert(bounded(sb[i], b, now));
                    let a = choose|a: int|
                        0 <= a < b.len() && behind_lock_screen(#[trigger] b[a]) && sb[i].start
                            == b[a].start_time;
                    assert(!rs[rs.len() - 1].start_time.before(rs[a].start_time));
                }
            }
        }
    }
}

spec fn stretches(rs: Seq<RecordView>, now: Timestamp) -> Seq<Period> {
    merged(segments(rs, now))
}

/// What one more record does to the stretches.
proof fn lemma_one_more(rs: Seq<RecordView>, now: Timestamp)
    requires
        rs.len() > 0,
    ensures
        ({
            let b = rs.drop_last();
            let r = rs.last();
            let sb = stretches(b, now);
            let s = stretches(rs, now);
            let end = end_of(r, now);
            let longer = sb.update(
                sb.len() - 1,
                Period { start: sb.last().start, end: sb.last().end.later(end) },
            );
            &&& !behind_lock_screen(r) ==> s == sb
            &&& behind_lock_screen(r) && b.len() > 0 && behind_lock_screen(b.last()) ==> sb.len() > 0
                && s == longer
            &&& behind_lock_screen(r) && !(b.len() > 0 && behind_lock_screen(b.last())) ==> s == (
            if sb.len() > 0 && 0 <= r.start_time.secs_since(sb.last().end) <= 3600 {
                longer
            } else {
                sb.push(Period { start: r.start_time, end })
            })
        }),
{
    let b = rs.drop_last();
    let r = rs.last();
    let sb = segments(b, now);
    let s = segments(rs, now);
    let end = end_of(r, now);
    lemma_behind(r);
    lemma_open(b, now);
    let open = runs_of(b, now).open;
    if !behind_lock_screen(r) {
        assert(s =~= sb);
    } else if open is Some {
        let q = open->0;
        let p = Period { start: q.start, end: q.end.later(end) };
        let done = runs_of(b, now).done;
        assert(sb == done.push(q));
        assert(s == done.push(p));
        assert(sb.drop_last() =~= done);
        assert(s.drop_last() =~= done);
        let md = merged(done);
        if md.len() > 0 {
            let x = md.last().end;
            law_instants_are_ordered(x, q.end, end);
            law_instants_are_ordered(q.end, x, end);
            law_instants_are_ordered(x, end, q.end);
            law_instants_are_ordered(q.end, end, x);
            assert(x.later(q.end).later(end) == x.later(q.end.later(end)));
        }
        assert(merged(s) =~= merged(sb).update(
            merged(sb).len() - 1,
            Period { start: merged(sb).last().start, end: merged(sb).last().end.later(end) },
        ));
    } else {
        let p = Period { start: r.start_time, end };
        assert(s =~= sb.push(p));
        assert(s.drop_last() =~= sb);
    }
}

spec fn stands_in_last(p: Timestamp, s: Seq<Period>) -> bool {
    s.len() > 0 && !p.before(s.last().start)
}

spec fn apart(s: Seq<Period>, m: int, end: Timestamp, start: Timestamp) -> bool {
    !end.before(s[m].end) || !s[m].start.before(start)
}

proof fn lemma_unbroken_shorter(rs: Seq<RecordView>, now: Timestamp, i: int, j: int)
    requires
        unbroken(rs, now, i, j),
        j < rs.len() - 1,
    ensures
        unbroken(rs.drop_last(), now, i, j),
{
    let b = rs.drop_last();
    assert(forall|k: int| 0 <= k < b.len() ==> b[k] == rs[k]);
    assert forall|p: int, q: int| i <= p < q <= j implies !#[trigger] long_pause(b, now, p, q) by {
        if long_pause(b, now, p, q) {
            assert(next_behind(rs, p, q)) by {
                assert forall|k: int| p < k < q implies !behind_lock_screen(#[trigger] rs[k]) by {
                    assert(b[k] == rs[k]);
                }
            }
            assert(long_pause(rs, now, p, q));
        }
    }
}

/// The stretches of records that follow one another: one that has no long pause lies in one, and a
/// long pause lies in none.
proof fn lemma_runs_of_sleep(rs: Seq<RecordView>, now: Timestamp)
    requires
        following(rs, now),
        plain_times(rs, now),
    ensures
        last_behind(rs) < 0 ==> stretches(rs, now).len() == 0,
        last_behind(rs) >= 0 ==> stretches(rs, now).len() > 0 && stretches(rs, now).last().end
            == end_of(rs[last_behind(rs)], now),
        forall|i: int| #[trigger]
            unbroken(rs, now, i, last_behind(rs)) ==> stands_in_last(
                rs[i].start_time,
                stretches(rs, now),
            ),
        forall|i: int, j: int| #[trigger]
            unbroken(rs, now, i, j) ==> covered(
                Period { start: rs[i].start_time, end: end_of(rs[j], now) },
                stretches(rs, now),
            ),
        forall|i: int, j: int, m: int|
            #![trigger long_pause(rs, now, i, j), stretches(rs, now)[m]]
            long_pause(rs, now, i, j) && 0 <= m < stretches(rs, now).len() ==> apart(
                stretches(rs, now),
                m,
                end_of(rs[i], now),
                rs[j].start_time,
            ),
    decreases rs.len(),
{
    if rs.len() > 0 {
        let b = rs.drop_last();
        let r = rs.last();
        let n = rs.len() - 1;
        let end = end_of(r, now);
        assert(forall|i: int| 0 <= i < b.len() ==> b[i] == rs[i]);
        lemma_runs_of_sleep(b, now);
        lemma_one_more(rs, now);
        lemma_last_behind(b);
        lemma_last_behind(rs);
        let sb = stretches(b, now);
        let s = stretches(rs, now);
        let l = last_behind(b);
        assert forall|i: int, j: int| long_pause(rs, now, i, j) && j < n implies #[trigger]
            long_pause(b, now, i, j) by {
            assert(forall|k: int| i < k < j ==> b[k] == rs[k]);
            assert(next_behind(b, i, j));
        }
        if !behind_lock_screen(r) {
            assert forall|i: int, j: int| #[trigger] unbroken(rs, now, i, j) implies unbroken(
                b,
                now,
                i,
                j,
            ) by {
                assert(behind_lock_screen(rs[j]));
                lemma_unbroken_shorter(rs, now, i, j);
            }
            assert forall|i: int, j: int, m: int|
                #![trigger long_pause(rs, now, i, j), s[m]]
                long_pause(rs, now, i, j) && 0 <= m < s.len() implies apart(
                s,
                m,
                end_of(rs[i], now),
                rs[j].start_time,
            ) by {
                assert(behind_lock_screen(rs[j]));
                assert(long_pause(b, now, i, j));
                assert(apart(sb, m, end_of(b[i], now), b[j].start_time));
            }
        } else {
            lemma_record_behind(rs, now);
        }
    }
}

/// One more record behind the lock screen.
proof fn lemma_record_behind(rs: Seq<RecordView>, now: Timestamp)
    requires
        rs.len() > 0,
        following(rs, now),
        plain_times(rs, now),
        behind_lock_screen(rs.last()),
        ({
            let b = rs.drop_last();
            let sb = stretches(b, now);
            &&& last_behind(b) < 0 ==> sb.len() == 0
            &&& last_behind(b) >= 0 ==> sb.len() > 0 && sb.last().end == end_of(
                b[last_behind(b)],
                now,
            )
            &&& forall|i: int| #[trigger]
                unbroken(b, now, i, last_behind(b)) ==> stands_in_last(b[i].start_time, sb)
            &&& forall|i: int, j: int| #[trigger]
                unbroken(b, now, i, j) ==> covered(
                    Period { start: b[i].start_time, end: end_of(b[j], now) },
                    sb,
                )
            &&& forall|i: int, j: int, m: int|
                #![trigger long_pause(b, now, i, j), sb[m]]
                long_pause(b, now, i, j) && 0 <= m < sb.len() ==> apart(
                    sb,
                    m,
                    end_of(b[i], now),
                    b[j].start_time,
                )
        }),
    ensures
        last_behind(rs) == rs.len() - 1,
        stretches(rs, now).len() > 0,
        stretches(rs, now).last().end == end_of(rs.last(), now),
        forall|i: int| #[trigger]
            unbroken(rs, now, i, rs.len() - 1) ==> stands_in_last(
                rs[i].start_time,
                stretches(rs, now),
            ),
        forall|i: int, j: int| #[trigger]
            unbroken(rs, now, i, j) ==> covered(
                Period { start: rs[i].start_time, end: end_of(rs[j], now) },
                stretches(rs, now),
            ),
        forall|i: int, j: int, m: int|
            #![trigger long_pause(rs, now, i, j), stretches(rs, now)[m]]
            long_pause(rs, now, i, j) && 0 <= m < stretches(rs, now).len() ==> apart(
                stretches(rs, now),
                m,
                end_of(rs[i], now),
                rs[j].start_time,
            ),
{
    let b = rs.drop_last();
    let r = rs.last();
    let n = rs.len() - 1;
    let end = end_of(r, now);
    assert(forall|i: int| 0 <= i < b.len() ==> b[i] == rs[i]);
    lemma_one_more(rs, now);
    lemma_last_behind(b);
    lemma_following_is_ordered(rs, now);
    let sb = stretches(b, now);
    let s = stretches(rs, now);
    let l = last_behind(b);
    let top = sb.len() - 1;
    assert(rs[n] == r);
    assert(!end_of(rs[n], now).before(rs[n].start_time));
    let joined = l >= 0 && !long_pause(rs, now, l, n);
    if l >= 0 {
        assert(!rs[n].start_time.before(end_of(rs[l], now)));
        assert(next_behind(rs, l, n));
        law_time_is_a_line(r.start_time, end_of(rs[l], now));
        law_time_is_a_line(end_of(rs[l], now), end);
        law_time_is_a_line(end, r.start_time);
    }
    if joined {
        assert(s =~= sb.update(top, Period { start: sb[top].start, end }));
    } else {
        assert(s =~= sb.push(Period { start: r.start_time, end }));
    }
    let last = s.len() - 1;
    law_instants_are_ordered(end, end, end);
    law_instants_are_ordered(r.start_time, r.start_time, end);
    lemma_stands(rs, now, joined);
    assert forall|i: int, j: int| #[trigger] unbroken(rs, now, i, j) implies covered(
        Period { start: rs[i].start_time, end: end_of(rs[j], now) },
        s,
    ) by {
        let x = Period { start: rs[i].start_time, end: end_of(rs[j], now) };
        if j == n {
            assert(stands_in_last(rs[i].start_time, s));
            assert(within(x, s[last]));
        } else {
            lemma_unbroken_shorter(rs, now, i, j);
            assert(unbroken(b, now, i, j));
            assert(covered(x, sb));
            let m = choose|m: int| 0 <= m < sb.len() && within(x, #[trigger] sb[m]);
            if joined && m == top {
                law_time_is_a_line(end, x.end);
                law_time_is_a_line(sb[top].end, x.end);
                assert(within(x, s[top]));
            } else {
                assert(within(x, s[m]));
            }
        }
    }
    assert forall|i: int, j: int, m: int|
        #![trigger long_pause(rs, now, i, j), s[m]]
        long_pause(rs, now, i, j) && 0 <= m < s.len() implies apart(
        s,
        m,
        end_of(rs[i], now),
        rs[j].start_time,
    ) by {
        lemma_apart(rs, now, i, j, m, joined);
    }
}

/// What has no long pause up to the last record lies in the last stretch.
proof fn lemma_stands(rs: Seq<RecordView>, now: Timestamp, joined: bool)
    requires
        rs.len() > 0,
        ordered(rs),
        behind_lock_screen(rs.last()),
        ({
            let b = rs.drop_last();
            let sb = stretches(b, now);
            let l = last_behind(b);
            &&& forall|i: int| #[trigger]
                unbroken(b, now, i, l) ==> stands_in_last(b[i].start_time, sb)
            &&& joined == (l >= 0 && !long_pause(rs, now, l, rs.len() - 1))
            &&& stretches(rs, now).len() > 0
            &&& joined ==> sb.len() > 0 && stretches(rs, now).last().start == sb.last().start
            &&& !joined ==> stretches(rs, now).last().start == rs.last().start_time
            &&& l >= 0 ==> next_behind(rs, l, rs.len() - 1)
        }),
    ensures
        forall|i: int| #[trigger]
            unbroken(rs, now, i, rs.len() - 1) ==> stands_in_last(
                rs[i].start_time,
                stretches(rs, now),
            ),
{
    let b = rs.drop_last();
    let n = rs.len() - 1;
    let s = stretches(rs, now);
    let sb = stretches(b, now);
    let l = last_behind(b);
    lemma_last_behind(b);
    assert(forall|i: int| 0 <= i < b.len() ==> b[i] == rs[i]);
    assert forall|i: int| #[trigger] unbroken(rs, now, i, n) implies stands_in_last(
        rs[i].start_time,
        s,
    ) by {
        if i < n {
            assert(b[i] == rs[i]);
            assert(l >= i);
            assert(!long_pause(rs, now, l, n));
            assert(joined);
            assert(unbroken(rs, now, i, l));
            lemma_unbroken_shorter(rs, now, i, l);
            assert(stands_in_last(b[i].start_time, sb));
        } else {
            law_instants_are_ordered(rs[n].start_time, rs[n].start_time, rs[n].start_time);
            if joined {
                lemma_unbroken_alone(b, now, l);
                assert(stands_in_last(b[l].start_time, sb));
                assert(!rs[n].start_time.before(rs[l].start_time));
                law_instants_are_ordered(rs[n].start_time, rs[l].start_time, sb.last().start);
                law_instants_are_ordered(rs[l].start_time, rs[n].start_time, sb.last().start);
            }
        }
    }
}

proof fn lemma_unbroken_alone(rs: Seq<RecordView>, now: Timestamp, i: int)
    requires
        0 <= i < rs.len(),
        behind_lock_screen(rs[i]),
    ensures
        unbroken(rs, now, i, i),
{
}

/// A long pause lies in no stretch.
proof fn lemma_apart(rs: Seq<RecordView>, now: Timestamp, i: int, j: int, m: int, joined: bool)
    requires
        rs.len() > 0,
        following(rs, now),
        plain_times(rs, now),
        behind_lock_screen(rs.last()),
        long_pause(rs, now, i, j),
        0 <= m < stretches(rs, now).len(),
        ({
            let b = rs.drop_last();
            let sb = stretches(b, now);
            let l = last_behind(b);
            let s = stretches(rs, now);
            let end = end_of(rs.last(), now);
            &&& l >= 0 ==> sb.len() > 0 && sb.last().end == end_of(b[l], now)
            &&& joined == (l >= 0 && !long_pause(rs, now, l, rs.len() - 1))
            &&& joined ==> s == sb.update(
                sb.len() - 1,
                Period { start: sb.last().start, end },
            )
            &&& !joined ==> s == sb.push(Period { start: rs.last().start_time, end })
            &&& forall|i: int, j: int, m: int|
                #![trigger long_pause(b, now, i, j), sb[m]]
                long_pause(b, now, i, j) && 0 <= m < sb.len() ==> apart(
                    sb,
                    m,
                    end_of(b[i], now),
                    b[j].start_time,
                )
        }),
    ensures
        apart(stretches(rs, now), m, end_of(rs[i], now), rs[j].start_time),
{
    let b = rs.drop_last();
    let n = rs.len() - 1;
    let s = stretches(rs, now);
    let sb = stretches(b, now);
    let l = last_behind(b);
    lemma_last_behind(b);
    assert(forall|k: int| 0 <= k < b.len() ==> b[k] == rs[k]);
    lemma_following_is_ordered(rs, now);
    let e = end_of(rs[i], now);
    if j < n {
        assert(next_behind(b, i, j)) by {
            assert(forall|k: int| i < k < j ==> b[k] == rs[k]);
        }
        assert(long_pause(b, now, i, j));
        if m < sb.len() {
            assert(sb[m] == sb[m]);
            assert(apart(sb, m, end_of(b[i], now), b[j].start_time));
        }
        if joined && m == sb.len() - 1 {
            assert(l >= j) by {
                assert(behind_lock_screen(b[j]));
            }
            assert(!end_of(rs[j], now).before(rs[j].start_time));
            if j < l {
                assert(!rs[l].start_time.before(end_of(rs[j], now)));
            }
            assert(!end_of(rs[l], now).before(rs[l].start_time));
            law_time_is_a_line(rs[j].start_time, e);
            law_time_is_a_line(end_of(rs[j], now), rs[j].start_time);
            law_time_is_a_line(rs[l].start_time, end_of(rs[j], now));
            law_time_is_a_line(end_of(rs[l], now), rs[l].start_time);
            law_time_is_a_line(e, end_of(rs[l], now));
            assert(e.before(sb.last().end));
        } else if m == sb.len() {
            assert(!rs[n].start_time.before(rs[j].start_time));
        }
    } else {
        assert(i == l) by {
            assert(behind_lock_screen(b[i]));
            if l > i {
                assert(behind_lock_screen(rs[l]));
            }
        }
        assert(!joined);
        law_instants_are_ordered(rs[n].start_time, rs[n].start_time, e);
        if m < sb.len() {
            lemma_segments(b, now);
            lemma_segments_sorted(b, now);
            lemma_merged(segments(b, now));
            let g = segments(b, now);
            assert(ends_in(sb[m], g));
            let k = choose|k: int| 0 <= k < g.len() && (#[trigger] g[k]).end == sb[m].end;
            assert(bounded(g[k], b, now));
            let q = choose|q: int|
                0 <= q < b.len() && behind_lock_screen(#[trigger] b[q]) && g[k].end == end_of(
                    b[q],
                    now,
                );
            assert(q <= l);
            if q < l {
                assert(!rs[l].start_time.before(end_of(rs[q], now)));
                assert(!end_of(rs[l], now).before(rs[l].start_time));
                law_instants_are_ordered(end_of(rs[l], now), rs[l].start_time, sb[m].end);
                law_instants_are_ordered(end_of(rs[l], now), sb[m].end, rs[l].start_time);
            } else {
                law_instants_are_ordered(e, e, e);
            }
            assert(s[m] == sb[m]);
        }
    }
}

/// Short pauses do not end sleep: from one record behind the lock screen to another, with no other
/// records between them that take more than an hour, the time counts as one, and where its part in
/// the window is long enough one candidate holds all of it.
pub proof fn law_short_pauses_do_not_end_sleep(
    rs: Seq<RecordView>,
    now: Timestamp,
    window: Period,
    min: int,
    i: int,
    j: int,
)
    requires
        following(rs, now),
        plain_times(rs, now),
        window.start.is_plain(),
        window.end.is_plain(),
        unbroken(rs, now, i, j),
        long_enough(part(rs[i].start_time, end_of(rs[j], now), window), min),
    ensures
        exists|c: int|
            0 <= c < candidates(rs, now, window, min).len() && within(
                part(rs[i].start_time, end_of(rs[j], now), window),
                #[trigger] candidates(rs, now, window, min)[c],
            ),
{
    lemma_following_is_ordered(rs, now);
    lemma_segments_sorted(rs, now);
    lemma_by_start_keeps(segments(rs, now));
    lemma_stretches(rs, now);
    lemma_runs_of_sleep(rs, now);
    let ms = stretches(rs, now);
    lemma_candidates(ms, window, min);
    let x = Period { start: rs[i].start_time, end: end_of(rs[j], now) };
    assert(covered(x, ms));
    let m = choose|m: int| 0 <= m < ms.len() && within(x, #[trigger] ms[m]);
    assert(bounded(ms[m], rs, now));
    lemma_bounds_are_plain(ms[m], rs, now);
    lemma_parts_grow(x, ms[m], window, min);
    let p = part(ms[m].start, ms[m].end, window);
    assert(candidates_of(ms, window, min).contains(p));
    let c = choose|c: int|
        0 <= c < candidates_of(ms, window, min).len() && candidates_of(ms, window, min)[c] == p;
    assert(within(part(x.start, x.end, window), candidates(rs, now, window, min)[c]));
}

/// A long pause ends sleep: where other records take more than an hour between two records behind
/// the lock screen, no candidate reaches from before the pause to behind it.
pub proof fn law_long_pauses_end_sleep(
    rs: Seq<RecordView>,
    now: Timestamp,
    window: Period,
    min: int,
    i: int,
    j: int,
    c: int,
)
    requires
        following(rs, now),
        plain_times(rs, now),
        window.start.is_plain(),
        window.end.is_plain(),
        long_pause(rs, now, i, j),
        0 <= c < candidates(rs, now, window, min).len(),
    ensures
        !end_of(rs[i], now).before(candidates(rs, now, window, min)[c].end) || !candidates(
            rs,
            now,
            window,
            min,
        )[c].start.before(rs[j].start_time),
{
    lemma_following_is_ordered(rs, now);
    lemma_segments_sorted(rs, now);
    lemma_by_start_keeps(segments(rs, now));
    lemma_stretches(rs, now);
    lemma_runs_of_sleep(rs, now);
    let ms = stretches(rs, now);
    let cs = candidates(rs, now, window, min);
    lemma_candidates(ms, window, min);
    let m = choose|m: int|
        #![trigger ms[m]]
        0 <= m < ms.len() && cs[c] == part(ms[m].start, ms[m].end, window) && long_enough(
            part(ms[m].start, ms[m].end, window),
            min,
        );
    assert(apart(ms, m, end_of(rs[i], now), rs[j].start_time));
    assert(bounded(ms[m], rs, now));
    lemma_bounds_are_plain(ms[m], rs, now);
    let e = end_of(rs[i], now);
    assert(rs[i].start_time.is_plain() && rs[j].start_time.is_plain());
    law_time_is_a_line(e, ms[m].end);
    law_time_is_a_line(window.end, ms[m].end);
    law_time_is_a_line(e, cs[c].end);
    law_time_is_a_line(ms[m].start, rs[j].start_time);
    law_time_is_a_line(ms[m].start, window.start);
    law_time_is_a_line(cs[c].start, rs[j].start_time);
}

/// A single record behind the lock screen that lies in the window and lasts long enough gives
/// exactly one candidate: the record from its start to its end.
pub proof fn law_one_long_lock_is_the_sleep(
    r: RecordView,
    now: Timestamp,
    window: Period,
    min: int,
)
    requires
        behind_lock_screen(r),
        !r.start_time.before(window.start),
        !window.end.before(end_of(r, now)),
        end_of(r, now).secs_since(r.start_time) > 0,
        end_of(r, now).secs_since(r.start_time) >= min,
    ensures
        candidates(seq![r], now, window, min) == seq![
            Period { start: r.start_time, end: end_of(r, now) },
        ],
{
    let rs = seq![r];
    let p = Period { start: r.start_time, end: end_of(r, now) };
    lemma_behind(r);
    assert(rs.drop_last() =~= Seq::empty());
    assert(rs.last() == r);
    assert(runs_of(rs.drop_last(), now) == (Runs { done: Seq::empty(), open: None }));
    assert(runs_of(rs, now) == with_record(runs_of(rs.drop_last(), now), r, now));
    let g = segments(rs, now);
    assert(g =~= seq![p]);
    assert(g.drop_first() =~= Seq::empty());
    assert(by_start(g.drop_first()) =~= Seq::empty());
    assert(by_start(g) =~= g);
    assert(g.drop_last() =~= Seq::empty());
    assert(merged(g.drop_last()) =~= Seq::empty());
    assert(merged(g) =~= g);
    law_instants_are_ordered(p.start, window.start, window.start);
    law_instants_are_ordered(p.end, window.end, window.end);
    assert(clipped(p, window) == p);
    assert(candidates_of(g.drop_last(), window, min) =~= Seq::empty());
    assert(candidates_of(g, window, min) =~= seq![p]);
}

/// Whether a record counts as sleep is told by the application that had the focus alone: records
/// that agree in their applications and times give the same candidates, whatever their states,
/// numbers and windows are.
pub proof fn law_sleep_is_told_by_application_and_time(
    a: Seq<RecordView>,
    b: Seq<RecordView>,
    now: Timestamp,
    window: Period,
    min: int,
)
    requires
        a.len() == b.len(),
        forall|i: int|
            0 <= i < a.len() ==> (#[trigger] a[i]).start_time == b[i].start_time && a[i].end_time
                == b[i].end_time && a[i].focus_info is Some == b[i].focus_info is Some && (
            a[i].focus_info is Some ==> a[i].focus_info->0.app_name == b[i].focus_info->0.app_name),
    ensures
        candidates(a, now, window, min) == candidates(b, now, window, min),
{
    lemma_same_runs(a, b, now);
}

proof fn lemma_same_runs(a: Seq<RecordView>, b: Seq<RecordView>, now: Timestamp)
    requires
        a.len() == b.len(),
        forall|i: int|
            0 <= i < a.len() ==> (#[trigger] a[i]).start_time == b[i].start_time && a[i].end_time
                == b[i].end_time && a[i].focus_info is Some == b[i].focus_info is Some && (
            a[i].focus_info is Some ==> a[i].focus_info->0.app_name == b[i].focus_info->0.app_name),
    ensures
        runs_of(a, now) == runs_of(b, now),
    decreases a.len(),
{
    if a.len() > 0 {
        let x = a.drop_last();
        let y = b.drop_last();
        assert forall|i: int| 0 <= i < x.len() implies (#[trigger] x[i]).start_time
            == y[i].start_time && x[i].end_time == y[i].end_time && x[i].focus_info is Some
            == y[i].focus_info is Some && (x[i].focus_info is Some ==> x[i].focus_info->0.app_name
            == y[i].focus_info->0.app_name) by {
            assert(x[i] == a[i] && y[i] == b[i]);
        }
        lemma_same_runs(x, y, now);
        let n = a.len() - 1;
        assert(a[n].start_time == b[n].start_time);
    }
}

} // verus!
