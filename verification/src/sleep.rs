//! Finds the time slept: stretches in which the lock screen had the focus.

use crate::display::{pretty, pretty_duration};
use crate::records::{ActivityRecord, RecordView};
use crate::text::{eq_ignore_ascii_case, push_text, same_ignoring_ascii_case};
use crate::time::Timestamp;
use crate::views::{lemma_take_all, lemma_take_succ, views};
use vstd::prelude::*;

verus! {

/// The application that has the focus while the screen is locked.
pub const LOGINWINDOW_APP: &'static str = "loginwindow";

/// How far apart stretches may lie to count as one.
pub const MERGE_GAP_SECS: i64 = 3600;

/// How long a stretch has to be to count as sleep.
pub const SLEEP_MIN_SECS: i64 = 14400;

/// The hour of the day at which the window for sleep starts. It lasts a day.
pub const WINDOW_START_HOUR: u32 = 21;

/// The hour of the day around which sleep is expected.
pub const TARGET_HOUR: u32 = 4;

/// The hours of the day between which the night lies.
pub const NIGHT_START_HOUR: u32 = 22;

pub const NIGHT_END_HOUR: u32 = 10;

/// How far from the expected hour the middle of a stretch still counts, in seconds.
pub const MIDPOINT_MAX_DIFF_SECS: i64 = 21600;

/// How many hours after its start on the same day the window for sleep is looked for: none from
/// the hour of its start on, and a day back before that.
pub fn window_shift_hours(hour: u32) -> (r: i64)
    ensures
        r == if hour >= WINDOW_START_HOUR {
            0int
        } else {
            -24
        },
        r == 0 <==> hour >= 21,
{
    if hour >= WINDOW_START_HOUR {
        0
    } else {
        -24
    }
}

/// How far the middle of a stretch lies from the expected hour, in seconds, as far as it counts.
pub fn midpoint_diff_secs(secs_of_day: u32) -> (r: i64)
    ensures
        ({
            let diff = secs_of_day - TARGET_HOUR * 3600;
            let far = if diff < 0 {
                -diff
            } else {
                diff
            };
            r == if far < MIDPOINT_MAX_DIFF_SECS {
                far
            } else {
                MIDPOINT_MAX_DIFF_SECS as int
            }
        }),
        0 <= r <= 21600,
        r < 21600 ==> secs_of_day == 14400 + r || secs_of_day == 14400 - r,
{
    let diff: i64 = secs_of_day as i64 - TARGET_HOUR as i64 * 3600;
    let far: i64 = if diff < 0 {
        -diff
    } else {
        diff
    };
    if far < MIDPOINT_MAX_DIFF_SECS {
        far
    } else {
        MIDPOINT_MAX_DIFF_SECS
    }
}

/// How many hours the night lasts.
pub fn night_hours() -> (r: i64)
    ensures
        r == 24 - NIGHT_START_HOUR + NIGHT_END_HOUR,
        r == 12,
{
    24 - NIGHT_START_HOUR as i64 + NIGHT_END_HOUR as i64
}

/// A stretch of time.
#[derive(Clone, Copy, Debug, PartialEq, Eq, Structural)]
pub struct Period {
    pub start: Timestamp,
    pub end: Timestamp,
}

/// The lock screen had the focus.
pub open spec fn is_locked_record(r: RecordView) -> bool {
    r.focus_info matches Some(f) && same_ignoring_ascii_case(f.app_name, LOGINWINDOW_APP@)
}

/// When the record ends; one without an end lasts until `now`.
pub open spec fn record_end(r: RecordView, now: Timestamp) -> Timestamp {
    match r.end_time {
        Some(t) => t,
        None => now,
    }
}

/// The runs of records with the lock screen, of which the last may still go on.
#[verifier::ext_equal]
pub struct Runs {
    pub done: Seq<Period>,
    pub open: Option<Period>,
}

/// The runs after one more record.
pub open spec fn with_record(runs: Runs, r: RecordView, now: Timestamp) -> Runs {
    let end = record_end(r, now);
    if is_locked_record(r) {
        Runs {
            open: match runs.open {
                None => Some(Period { start: r.start_time, end }),
                Some(p) => Some(Period { start: p.start, end: p.end.later(end) }),
            },
            ..runs
        }
    } else {
        match runs.open {
            Some(p) => Runs { done: runs.done.push(p), open: None },
            None => runs,
        }
    }
}

/// The runs of the records.
pub open spec fn runs_of(rs: Seq<RecordView>, now: Timestamp) -> Runs
    decreases rs.len(),
{
    if rs.len() == 0 {
        Runs { done: Seq::empty(), open: None }
    } else {
        with_record(runs_of(rs.drop_last(), now), rs.last(), now)
    }
}

/// The stretches in which the lock screen had the focus.
pub open spec fn segments(rs: Seq<RecordView>, now: Timestamp) -> Seq<Period> {
    let runs = runs_of(rs, now);
    match runs.open {
        Some(p) => runs.done.push(p),
        None => runs.done,
    }
}

/// How many periods at the front start before `t`.
pub open spec fn place(s: Seq<Period>, t: Timestamp) -> int
    decreases s.len(),
{
    if s.len() == 0 || !s[0].start.before(t) {
        0
    } else {
        1 + place(s.drop_first(), t)
    }
}

/// The periods by their start; of those that start together the one that came first stays first.
pub open spec fn by_start(s: Seq<Period>) -> Seq<Period>
    decreases s.len(),
{
    if s.len() == 0 {
        Seq::empty()
    } else {
        let rest = by_start(s.drop_first());
        rest.insert(place(rest, s[0].start), s[0])
    }
}

/// Periods that follow one another within an hour, drawn together.
pub open spec fn merged(s: Seq<Period>) -> Seq<Period>
    decreases s.len(),
{
    if s.len() == 0 {
        Seq::empty()
    } else {
        let before = merged(s.drop_last());
        let p = s.last();
        if before.len() > 0 && 0 <= p.start.secs_since(before.last().end) <= MERGE_GAP_SECS {
            before.update(
                before.len() - 1,
                Period { start: before.last().start, end: before.last().end.later(p.end) },
            )
        } else {
            before.push(p)
        }
    }
}

/// The part of a period that lies in the window.
pub open spec fn clipped(p: Period, window: Period) -> Period {
    Period { start: p.start.later(window.start), end: p.end.earlier(window.end) }
}

/// The part of the period in the window lasts, and for `min` seconds at least.
pub open spec fn is_candidate(p: Period, window: Period, min: int) -> bool {
    let c = clipped(p, window);
    c.end.secs_since(c.start) > 0 && c.end.secs_since(c.start) >= min
}

/// The parts of the periods that lie in the window and last long enough.
pub open spec fn candidates_of(s: Seq<Period>, window: Period, min: int) -> Seq<Period>
    decreases s.len(),
{
    if s.len() == 0 {
        Seq::empty()
    } else {
        let before = candidates_of(s.drop_last(), window, min);
        if is_candidate(s.last(), window, min) {
            before.push(clipped(s.last(), window))
        } else {
            before
        }
    }
}

/// The stretches with the lock screen that may have been sleep.
pub open spec fn candidates(
    rs: Seq<RecordView>,
    now: Timestamp,
    window: Period,
    min: int,
) -> Seq<Period> {
    candidates_of(merged(by_start(segments(rs, now))), window, min)
}

fn shows_lock(record: &ActivityRecord) -> (r: bool)
    ensures
        r == is_locked_record(record@),
{
    match &record.focus_info {
        Some(f) => eq_ignore_ascii_case(f.app_name.as_str(), LOGINWINDOW_APP),
        None => false,
    }
}

fn collect_segments(records: &[ActivityRecord], now: Timestamp) -> (r: Vec<Period>)
    ensures
        r@ == segments(views(records@), now),
{
    let ghost all = views(records@);
    let mut done: Vec<Period> = Vec::new();
    let mut open: Option<Period> = None;
    let mut i: usize = 0;
    while i < records.len()
        invariant
            all == views(records@),
            i <= records.len(),
            (Runs { done: done@, open }) == runs_of(all.take(i as int), now),
        decreases records.len() - i,
    {
        proof {
            lemma_take_succ(all, i as int);
        }
        let record = &records[i];
        let end = match record.end_time {
            Some(t) => t,
            None => now,
        };
        if shows_lock(record) {
            open = match open {
                None => Some(Period { start: record.start_time, end }),
                Some(p) => Some(Period { start: p.start, end: p.end.max_with(&end) }),
            };
        } else {
            match open {
                Some(p) => {
                    done.push(p);
                    open = None;
                },
                None => {},
            }
        }
        assert((Runs { done: done@, open }) =~= with_record(
            runs_of(all.take(i as int), now),
            all[i as int],
            now,
        ));
        i += 1;
    }
    proof {
        lemma_take_all(all);
    }
    match open {
        Some(p) => {
            done.push(p);
        },
        None => {},
    }
    done
}

proof fn lemma_place_is(s: Seq<Period>, t: Timestamp, n: int)
    requires
        0 <= n <= s.len(),
        forall|i: int| 0 <= i < n ==> (#[trigger] s[i]).start.before(t),
        n < s.len() ==> !s[n].start.before(t),
    ensures
        place(s, t) == n,
    decreases s.len(),
{
    if n > 0 {
        assert(s[0].start.before(t));
        let r = s.drop_first();
        assert forall|i: int| 0 <= i < n - 1 implies (#[trigger] r[i]).start.before(t) by {
            assert(r[i] == s[i + 1]);
        }
        lemma_place_is(r, t, n - 1);
    }
}

fn sort_by_start(items: Vec<Period>) -> (r: Vec<Period>)
    ensures
        r@ == by_start(items@),
{
    let ghost all = items@;
    let mut items = items;
    let mut out: Vec<Period> = Vec::new();
    assert(all.subrange(all.len() as int, all.len() as int) =~= Seq::empty());
    while items.len() > 0
        invariant
            items.len() <= all.len(),
            items@ == all.take(items.len() as int),
            out@ == by_start(all.subrange(items.len() as int, all.len() as int)),
        decreases items.len(),
    {
        let ghost n = items.len();
        let ghost longer = all.subrange(n - 1, all.len() as int);
        let item = items.pop().unwrap();
        assert(item == all[n - 1]);
        assert(longer.drop_first() =~= all.subrange(n as int, all.len() as int));
        let mut pos: usize = 0;
        while pos < out.len() && out[pos].start.is_before(&item.start)
            invariant
                pos <= out.len(),
                forall|i: int| 0 <= i < pos ==> (#[trigger] out@[i]).start.before(item.start),
            decreases out.len() - pos,
        {
            pos += 1;
        }
        proof {
            lemma_place_is(out@, item.start, pos as int);
        }
        out.insert(pos, item);
        assert(items@ =~= all.take(items.len() as int));
    }
    assert(all.subrange(0, all.len() as int) =~= all);
    out
}

fn merge(sorted: &Vec<Period>) -> (r: Vec<Period>)
    ensures
        r@ == merged(sorted@),
{
    let mut out: Vec<Period> = Vec::new();
    let mut i: usize = 0;
    while i < sorted.len()
        invariant
            i <= sorted.len(),
            out@ == merged(sorted@.take(i as int)),
        decreases sorted.len() - i,
    {
        proof {
            lemma_take_succ(sorted@, i as int);
        }
        let p = sorted[i];
        let n: usize = out.len();
        let mut joined = false;
        if n > 0 {
            let last = out[n - 1];
            let gap: i64 = p.start.num_seconds_since(&last.end);
            if gap >= 0 && gap <= MERGE_GAP_SECS {
                out[n - 1] = Period { start: last.start, end: last.end.max_with(&p.end) };
                joined = true;
            }
        }
        if !joined {
            out.push(p);
        }
        i += 1;
    }
    proof {
        lemma_take_all(sorted@);
    }
    out
}

/// How many seconds of the period lie in the window.
pub fn overlap_seconds(period: Period, window: Period) -> (r: i64)
    ensures
        r == if clipped(period, window).end.secs_since(clipped(period, window).start) > 0 {
            clipped(period, window).end.secs_since(clipped(period, window).start)
        } else {
            0
        },
{
    let s = period.start.max_with(&window.start);
    let e = period.end.min_with(&window.end);
    let secs: i64 = e.num_seconds_since(&s);
    if secs > 0 {
        secs
    } else {
        0
    }
}

/// The stretches with the lock screen that may have been sleep: drawn together where they follow
/// one another within an hour, cut to the window, and at least `min_duration_secs` seconds long.
pub fn sleep_candidates(
    records: &[ActivityRecord],
    now: Timestamp,
    window: Period,
    min_duration_secs: i64,
) -> (r: Vec<Period>)
    ensures
        r@ == candidates(views(records@), now, window, min_duration_secs as int),
{
    let found = collect_segments(records, now);
    let sorted = sort_by_start(found);
    let spans = merge(&sorted);
    let mut out: Vec<Period> = Vec::new();
    let mut i: usize = 0;
    while i < spans.len()
        invariant
            i <= spans.len(),
            out@ == candidates_of(spans@.take(i as int), window, min_duration_secs as int),
        decreases spans.len() - i,
    {
        proof {
            lemma_take_succ(spans@, i as int);
        }
        let p = spans[i];
        let s = p.start.max_with(&window.start);
        let e = p.end.min_with(&window.end);
        let secs: i64 = e.num_seconds_since(&s);
        if secs > 0 && secs >= min_duration_secs {
            out.push(Period { start: s, end: e });
        }
        i += 1;
    }
    proof {
        lemma_take_all(spans@);
    }
    out
}

/// The candidate at `i` has the highest score, and is the first that has it.
pub open spec fn is_best(scores: Seq<u64>, i: int) -> bool {
    &&& 0 <= i < scores.len()
    &&& forall|j: int| 0 <= j < scores.len() ==> scores[j] <= scores[i]
    &&& forall|j: int| 0 <= j < i ==> scores[j] < scores[i]
}

/// The candidate with the highest score; the first of them where there are several.
pub fn best_period(found: &Vec<Period>, scores: &Vec<u64>) -> (r: Option<Period>)
    requires
        found.len() == scores.len(),
    ensures
        match r {
            Some(p) => exists|i: int| #[trigger] is_best(scores@, i) && p == found@[i],
            None => found@.len() == 0,
        },
{
    if found.len() == 0 {
        return None;
    }
    let mut best: usize = 0;
    let mut i: usize = 1;
    while i < found.len()
        invariant
            found.len() == scores.len(),
            best < i <= found.len(),
            forall|j: int| 0 <= j < i ==> scores@[j] <= scores@[best as int],
            forall|j: int| 0 <= j < best ==> scores@[j] < scores@[best as int],
        decreases found.len() - i,
    {
        if scores[i] > scores[best] {
            best = i;
        }
        i += 1;
    }
    assert(is_best(scores@, best as int));
    Some(found[best])
}

/// Every candidate lies in the window and lasts long enough.
pub proof fn law_candidates_lie_in_window(s: Seq<Period>, window: Period, min: int, i: int)
    requires
        0 <= i < candidates_of(s, window, min).len(),
    ensures
        ({
            let c = candidates_of(s, window, min)[i];
            &&& !c.start.before(window.start)
            &&& !window.end.before(c.end)
            &&& c.end.secs_since(c.start) > 0
            &&& c.end.secs_since(c.start) >= min
        }),
    decreases s.len(),
{
    if i < candidates_of(s.drop_last(), window, min).len() {
        law_candidates_lie_in_window(s.drop_last(), window, min, i);
    }
}

/// Since when applications are listed, and how that is put.
#[derive(Debug)]
pub struct AppsPeriod {
    pub since_utc: Timestamp,
    pub title: String,
    pub line: String,
}

/// The listing since the start of the given sleep. `from` and `to` are its start and its end as
/// times of the day.
pub fn period_of_sleep(sleep: Period, from: &str, to: &str) -> (r: AppsPeriod)
    ensures
        r.since_utc == sleep.start,
        r.title@ == "Apps (since "@ + from@ + ")"@,
        r.line@ == "Period: last loginwindow "@ + from@ + "–"@ + to@ + " ("@ + pretty(
            if sleep.end.secs_since(sleep.start) > 0 {
                sleep.end.secs_since(sleep.start)
            } else {
                0
            },
        ) + ")"@,
{
    let secs: i64 = sleep.end.num_seconds_since(&sleep.start);
    let duration: u64 = if secs > 0 {
        secs as u64
    } else {
        0
    };
    let mut title = "Apps (since ".to_string();
    push_text(&mut title, from);
    push_text(&mut title, ")");
    let mut line = "Period: last loginwindow ".to_string();
    push_text(&mut line, from);
    push_text(&mut line, "–");
    push_text(&mut line, to);
    push_text(&mut line, " (");
    push_text(&mut line, pretty_duration(duration).as_str());
    push_text(&mut line, ")");
    AppsPeriod { since_utc: sleep.start, title, line }
}

/// The listing since midnight. `at` is midnight as a time of the day.
pub fn period_since_midnight(midnight: Timestamp, at: &str) -> (r: AppsPeriod)
    ensures
        r.since_utc == midnight,
        r.title@ == "Apps (since "@ + at@ + ")"@,
        r.line@ == "Period: since "@ + at@ + " (fallback: local midnight)"@,
{
    let mut title = "Apps (since ".to_string();
    push_text(&mut title, at);
    push_text(&mut title, ")");
    let mut line = "Period: since ".to_string();
    push_text(&mut line, at);
    push_text(&mut line, " (fallback: local midnight)");
    AppsPeriod { since_utc: midnight, title, line }
}

/// The best candidate has no equal before it and no better one anywhere, so there is only one.
pub proof fn law_best_candidate_is_the_first_of_the_highest(scores: Seq<u64>, i: int)
    requires
        is_best(scores, i),
    ensures
        0 <= i < scores.len(),
        forall|j: int| 0 <= j < scores.len() ==> scores[j] <= scores[i],
        forall|j: int| 0 <= j < scores.len() && scores[j] == scores[i] ==> i <= j,
        forall|j: int| #[trigger] is_best(scores, j) ==> j == i,
{
    assert forall|j: int| 0 <= j < scores.len() && scores[j] == scores[i] implies i <= j by {
        if j < i {
            assert(scores[j] < scores[i]);
        }
    }
    assert forall|j: int| #[trigger] is_best(scores, j) implies j == i by {
        if j < i {
            assert(scores[j] < scores[i]);
        } else if i < j {
            assert(scores[i] < scores[j]);
        }
    }
}

} // verus!
