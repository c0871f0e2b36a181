//! Paths of the pointer: which stored ones are compared, and which of their points a
//! simplification keeps. Distances are measured elsewhere; here are the decisions that follow.

use crate::events::{MouseEventData, MouseEventKind, MousePosition};
use crate::numbers::{
    decimal, is_digit, law_decimal_is_read_back, lemma_digits, number_in, parse_number,
};
use crate::text::{chars_of, push_text};
use crate::time::Timestamp;
use crate::views::{lemma_take_all, lemma_take_succ};
use vstd::prelude::*;

verus! {

/// The one colon of the text stands at `c`.
pub open spec fn only_colon(s: Seq<char>, c: int) -> bool {
    &&& 0 <= c < s.len()
    &&& s[c] == ':'
    &&& forall|i: int| 0 <= i < s.len() && i != c ==> s[i] != ':'
}

/// The number that a text denotes, or the given one where it denotes none.
pub open spec fn number_or(s: Seq<char>, otherwise: int) -> int {
    match number_in(s) {
        Some(n) => if n <= usize::MAX {
            n as int
        } else {
            otherwise
        },
        None => otherwise,
    }
}

/// The numbers from `a` to `b`, both included.
pub open spec fn from_to(a: int, b: int) -> Seq<usize> {
    Seq::new(
        if a <= b {
            (b - a + 1) as nat
        } else {
            0
        },
        |i: int| (a + i) as usize,
    )
}

/// The last of `total` rows; the first where there is none.
pub open spec fn last_row(total: int) -> int {
    if total > 0 {
        total - 1
    } else {
        0
    }
}

/// The rows from the first number to the second. What is no number counts as the first or the
/// last row, and a row after the last as the last.
pub open spec fn rows_between(from: Seq<char>, to: Seq<char>, total: int) -> Seq<usize> {
    let end = number_or(to, last_row(total));
    from_to(
        number_or(from, 0),
        if end < last_row(total) {
            end
        } else {
            last_row(total)
        },
    )
}

/// The rows that a range denotes: two numbers with one colon between them.
pub open spec fn rows_in_range(r: Seq<char>, total: int) -> Seq<usize> {
    if exists|c: int| only_colon(r, c) {
        let c = choose|c: int| only_colon(r, c);
        rows_between(r.take(c), r.skip(c + 1), total)
    } else {
        Seq::empty()
    }
}

fn number_or_else(s: &str, otherwise: usize) -> (r: usize)
    ensures
        r == number_or(s@, otherwise as int),
{
    match parse_number(s, usize::MAX as u64) {
        Some(n) => n as usize,
        None => otherwise,
    }
}

fn collect_rows(from: usize, to: usize) -> (r: Vec<usize>)
    requires
        to < usize::MAX,
    ensures
        r@ == from_to(from as int, to as int),
{
    let mut out: Vec<usize> = Vec::new();
    let mut i: usize = from;
    assert(out@ =~= from_to(from as int, from - 1));
    while i <= to
        invariant
            to < usize::MAX,
            from <= i,
            i <= to + 1 || i == from,
            out@ == from_to(from as int, i - 1),
        decreases to + 1 - i,
    {
        out.push(i);
        i += 1;
        assert(out@ =~= from_to(from as int, i - 1));
    }
    assert(out@ =~= from_to(from as int, to as int));
    out
}

/// The rows that a range denotes, of `total` rows.
pub fn parse_range(r: &str, total: usize) -> (rows: Vec<usize>)
    ensures
        rows@ == rows_in_range(r@, total as int),
{
    let v = chars_of(r);
    let mut at: usize = 0;
    let mut count: usize = 0;
    let mut i: usize = 0;
    while i < v.len()
        invariant
            v@ == r@,
            i <= v.len(),
            count <= i,
            count == 0 ==> forall|j: int| 0 <= j < i ==> v@[j] != ':',
            count == 1 ==> at < i && v@[at as int] == ':' && forall|j: int|
                0 <= j < i && j != at ==> v@[j] != ':',
            count > 1 ==> exists|a: int, b: int|
                0 <= a < b < i && #[trigger] v@[a] == ':' && #[trigger] v@[b] == ':',
        decreases v.len() - i,
    {
        if v[i] == ':' {
            if count == 0 {
                at = i;
            } else if count == 1 {
                assert(v@[at as int] == ':' && v@[i as int] == ':');
            }
            count += 1;
        }
        i += 1;
    }
    if count != 1 {
        assert(!exists|c: int| only_colon(r@, c));
        let none: Vec<usize> = Vec::new();
        assert(none@ =~= Seq::empty());
        return none;
    }
    proof {
        assert(only_colon(r@, at as int));
        let c = choose|c: int| only_colon(r@, c);
        assert(only_colon(r@, c));
        assert(c == at);
    }
    let last: usize = if total > 0 {
        total - 1
    } else {
        0
    };
    let left = r.substring_char(0, at);
    let right = r.substring_char(at + 1, v.len());
    assert(left@ =~= r@.take(at as int));
    assert(right@ =~= r@.skip(at + 1));
    let start: usize = number_or_else(left, 0);
    let end: usize = number_or_else(right, last);
    collect_rows(
        start,
        if end < last {
            end
        } else {
            last
        },
    )
}

/// How the rows were asked for.
#[derive(Debug)]
pub enum RowChoice {
    Indices(Vec<usize>),
    Range(String),
    Last(usize),
}

/// The rows asked for, of `total` rows.
pub open spec fn rows_asked(choice: RowChoice, total: int) -> Seq<usize> {
    match choice {
        RowChoice::Indices(rows) => rows@,
        RowChoice::Range(r) => rows_in_range(r@, total),
        RowChoice::Last(n) => from_to(
            if n <= total {
                total - n
            } else {
                0
            },
            total - 1,
        ),
    }
}

/// The last `limit` of the rows, all of them where there are no more.
pub open spec fn last_rows(rows: Seq<usize>, limit: Option<usize>) -> Seq<usize> {
    match limit {
        Some(n) => if rows.len() > n {
            rows.skip(rows.len() - n)
        } else {
            rows
        },
        None => rows,
    }
}

/// The rows to compare: those asked for, no more than `limit` from the end.
pub fn select_rows(choice: &RowChoice, total: usize, limit: Option<usize>) -> (r: Vec<usize>)
    requires
        total < usize::MAX,
    ensures
        r@ == last_rows(rows_asked(*choice, total as int), limit),
{
    let rows = match choice {
        RowChoice::Indices(rows) => {
            let all = rows.clone();
            assert(all@ =~= rows@);
            all
        },
        RowChoice::Range(r) => parse_range(r.as_str(), total),
        RowChoice::Last(n) => {
            let from: usize = if *n <= total {
                total - *n
            } else {
                0
            };
            if total == 0 {
                let none: Vec<usize> = Vec::new();
                assert(none@ =~= from_to(0, -1));
                none
            } else {
                collect_rows(from, total - 1)
            }
        },
    };
    match limit {
        Some(n) => {
            if rows.len() > n {
                let mut out: Vec<usize> = Vec::new();
                let from: usize = rows.len() - n;
                let mut i: usize = from;
                assert(out@ =~= rows@.subrange(from as int, from as int));
                while i < rows.len()
                    invariant
                        from <= i <= rows.len(),
                        out@ == rows@.subrange(from as int, i as int),
                    decreases rows.len() - i,
                {
                    out.push(rows[i]);
                    i += 1;
                    assert(out@ =~= rows@.subrange(from as int, i as int));
                }
                assert(out@ =~= rows@.skip(from as int));
                out
            } else {
                rows
            }
        },
        None => rows,
    }
}

/// `n` question marks with commas between them.
pub open spec fn marks(n: nat) -> Seq<char>
    decreases n,
{
    if n == 0 {
        Seq::empty()
    } else if n == 1 {
        "?"@
    } else {
        marks((n - 1) as nat) + ",?"@
    }
}

/// The query for so many raw events by their numbers.
pub fn raw_points_query(count: usize) -> (r: String)
    ensures
        r@
            == "SELECT event_id, timestamp, kind, payload FROM raw_envelopes WHERE kind='signal:mouse' AND event_id IN ("@
            + marks(count as nat) + ") ORDER BY timestamp, event_id"@,
{
    let mut list = String::new();
    let mut i: usize = 0;
    assert(list@ =~= marks(0));
    while i < count
        invariant
            i <= count,
            list@ == marks(i as nat),
        decreases count - i,
    {
        if i == 0 {
            push_text(&mut list, "?");
            assert(list@ =~= marks(1));
        } else {
            push_text(&mut list, ",?");
        }
        i += 1;
    }
    let mut t =
        "SELECT event_id, timestamp, kind, payload FROM raw_envelopes WHERE kind='signal:mouse' AND event_id IN (".to_string();
    push_text(&mut t, list.as_str());
    push_text(&mut t, ") ORDER BY timestamp, event_id");
    t
}

/// A point of the pointer's way.
#[derive(Clone, Copy, Debug)]
pub struct RawMousePoint {
    pub ts: Timestamp,
    pub id: u64,
    pub pos: MousePosition,
    pub kind: MouseEventKind,
}

/// The point that a raw event adds to the way: none unless the pointer was moved or dragged.
pub fn raw_point(ts: Timestamp, id: u64, data: &MouseEventData) -> (r: Option<RawMousePoint>)
    ensures
        r == match data.event_type {
            Some(MouseEventKind::Moved) => Some(
                RawMousePoint { ts, id, pos: data.position, kind: MouseEventKind::Moved },
            ),
            Some(MouseEventKind::Dragged) => Some(
                RawMousePoint { ts, id, pos: data.position, kind: MouseEventKind::Dragged },
            ),
            _ => None,
        },
{
    match data.event_type {
        Some(MouseEventKind::Moved) => Some(
            RawMousePoint { ts, id, pos: data.position, kind: MouseEventKind::Moved },
        ),
        Some(MouseEventKind::Dragged) => Some(
            RawMousePoint { ts, id, pos: data.position, kind: MouseEventKind::Dragged },
        ),
        _ => None,
    }
}

/// Points are ordered by time, and by number at the same time.
pub open spec fn comes_before(a: RawMousePoint, b: RawMousePoint) -> bool {
    a.ts.before(b.ts) || (!b.ts.before(a.ts) && a.id < b.id)
}

/// How many points at the front come before `p`.
pub open spec fn place_of(s: Seq<RawMousePoint>, p: RawMousePoint) -> int
    decreases s.len(),
{
    if s.len() == 0 || !comes_before(s[0], p) {
        0
    } else {
        1 + place_of(s.drop_first(), p)
    }
}

/// The points in order. Points of the same time and number keep theirs.
pub open spec fn in_order(s: Seq<RawMousePoint>) -> Seq<RawMousePoint>
    decreases s.len(),
{
    if s.len() == 0 {
        Seq::empty()
    } else {
        let rest = in_order(s.drop_first());
        rest.insert(place_of(rest, s[0]), s[0])
    }
}

proof fn lemma_place_of_is(s: Seq<RawMousePoint>, p: RawMousePoint, n: int)
    requires
        0 <= n <= s.len(),
        forall|i: int| 0 <= i < n ==> comes_before(#[trigger] s[i], p),
        n < s.len() ==> !comes_before(s[n], p),
    ensures
        place_of(s, p) == n,
    decreases s.len(),
{
    if n > 0 {
        assert(comes_before(s[0], p));
        let r = s.drop_first();
        assert forall|i: int| 0 <= i < n - 1 implies comes_before(#[trigger] r[i], p) by {
            assert(r[i] == s[i + 1]);
        }
        lemma_place_of_is(r, p, n - 1);
    }
}

proof fn lemma_place_of_splits(s: Seq<RawMousePoint>, p: RawMousePoint)
    ensures
        0 <= place_of(s, p) <= s.len(),
        forall|i: int| 0 <= i < place_of(s, p) ==> comes_before(#[trigger] s[i], p),
        place_of(s, p) < s.len() ==> !comes_before(s[place_of(s, p)], p),
    decreases s.len(),
{
    if s.len() > 0 && comes_before(s[0], p) {
        let r = s.drop_first();
        lemma_place_of_splits(r, p);
        assert forall|i: int| 0 <= i < place_of(s, p) implies comes_before(#[trigger] s[i], p) by {
            if i > 0 {
                assert(r[i - 1] == s[i]);
            }
        }
    }
}

/// Sorting the points loses none and adds none, and no point comes after one that it comes before.
pub proof fn law_points_come_in_order(s: Seq<RawMousePoint>)
    ensures
        in_order(s).to_multiset() == s.to_multiset(),
        in_order(s).len() == s.len(),
        forall|i: int, j: int|
            0 <= i < j < s.len() ==> !comes_before(
                #[trigger] in_order(s)[j],
                #[trigger] in_order(s)[i],
            ),
    decreases s.len(),
{
    broadcast use vstd::seq_lib::group_to_multiset_ensures;

    if s.len() == 0 {
        assert(in_order(s) =~= s);
    } else {
        let tail = s.drop_first();
        let rest = in_order(tail);
        law_points_come_in_order(tail);
        let n = place_of(rest, s[0]);
        lemma_place_of_splits(rest, s[0]);
        let r = rest.insert(n, s[0]);
        assert(s.remove(0) =~= tail);
        assert(r.remove(n) =~= rest);
        assert(s.contains(s[0]) && r.contains(r[n]));
        assert(s.to_multiset() =~= s.to_multiset().remove(s[0]).insert(s[0]));
        assert(r.to_multiset() =~= r.to_multiset().remove(s[0]).insert(s[0]));
        assert(r.to_multiset() =~= s.to_multiset());
        assert forall|i: int, j: int| 0 <= i < j < s.len() implies !comes_before(
            #[trigger] r[j],
            #[trigger] r[i],
        ) by {
            if i == n {
                assert(r[j] == rest[j - 1]);
                if j - 1 > n {
                    assert(!comes_before(rest[j - 1], rest[n]));
                }
            } else if j == n {
                assert(r[i] == rest[i]);
            } else {
                let a = if i < n {
                    i
                } else {
                    i - 1
                };
                let b = if j < n {
                    j
                } else {
                    j - 1
                };
                assert(!comes_before(rest[b], rest[a]));
            }
        }
    }
}

/// The points of the pointer's way in order.
pub fn sort_points(points: Vec<RawMousePoint>) -> (r: Vec<RawMousePoint>)
    ensures
        r@ == in_order(points@),
{
    let ghost all = points@;
    let mut points = points;
    let mut out: Vec<RawMousePoint> = Vec::new();
    assert(out@ =~= in_order(all.subrange(all.len() as int, all.len() as int)));
    assert(points@ =~= all.take(points@.len() as int));
    while points.len() > 0
        invariant
            points.len() <= all.len(),
            points@ == all.take(points@.len() as int),
            out@ == in_order(all.subrange(points@.len() as int, all.len() as int)),
        decreases points.len(),
    {
        let ghost n = points@.len();
        let ghost longer = all.subrange(n - 1, all.len() as int);
        let p = points.pop().unwrap();
        assert(p == all[n - 1]);
        assert(longer.drop_first() =~= all.subrange(n as int, all.len() as int));
        let mut at: usize = 0;
        while at < out.len() && (out[at].ts.is_before(&p.ts) || (!p.ts.is_before(&out[at].ts)
            && out[at].id < p.id))
            invariant
                at <= out.len(),
                forall|i: int| 0 <= i < at ==> comes_before(#[trigger] out@[i], p),
            decreases out.len() - at,
        {
            at += 1;
        }
        proof {
            lemma_place_of_is(out@, p, at as int);
        }
        out.insert(at, p);
        assert(points@ =~= all.take(points@.len() as int));
    }
    assert(all.subrange(0, all.len() as int) =~= all);
    out
}

/// The smallest value of a coordinate; the largest of all numbers where there is no point.
pub open spec fn smallest(s: Seq<i32>) -> i32
    decreases s.len(),
{
    if s.len() == 0 {
        i32::MAX
    } else {
        let m = smallest(s.drop_last());
        if s.last() < m {
            s.last()
        } else {
            m
        }
    }
}

/// The largest value of a coordinate; the smallest of all numbers where there is no point.
pub open spec fn largest(s: Seq<i32>) -> i32
    decreases s.len(),
{
    if s.len() == 0 {
        i32::MIN
    } else {
        let m = largest(s.drop_last());
        if s.last() > m {
            s.last()
        } else {
            m
        }
    }
}

pub open spec fn xs(pts: Seq<MousePosition>) -> Seq<i32> {
    pts.map_values(|p: MousePosition| p.x)
}

pub open spec fn ys(pts: Seq<MousePosition>) -> Seq<i32> {
    pts.map_values(|p: MousePosition| p.y)
}

/// The smallest rectangle that holds all points, as its smallest and its largest coordinates.
pub fn bounds(pts: &[MousePosition]) -> (r: (i32, i32, i32, i32))
    ensures
        r == (smallest(xs(pts@)), smallest(ys(pts@)), largest(xs(pts@)), largest(ys(pts@))),
{
    let mut minx: i32 = i32::MAX;
    let mut miny: i32 = i32::MAX;
    let mut maxx: i32 = i32::MIN;
    let mut maxy: i32 = i32::MIN;
    let mut i: usize = 0;
    while i < pts.len()
        invariant
            i <= pts.len(),
            minx == smallest(xs(pts@.take(i as int))),
            miny == smallest(ys(pts@.take(i as int))),
            maxx == largest(xs(pts@.take(i as int))),
            maxy == largest(ys(pts@.take(i as int))),
        decreases pts.len() - i,
    {
        proof {
            let longer = pts@.take(i + 1);
            lemma_take_succ(pts@, i as int);
            assert(xs(longer).drop_last() =~= xs(pts@.take(i as int)));
            assert(ys(longer).drop_last() =~= ys(pts@.take(i as int)));
        }
        let p = pts[i];
        if p.x < minx {
            minx = p.x;
        }
        if p.y < miny {
            miny = p.y;
        }
        if p.x > maxx {
            maxx = p.x;
        }
        if p.y > maxy {
            maxy = p.y;
        }
        i += 1;
    }
    proof {
        lemma_take_all(pts@);
    }
    (minx, miny, maxx, maxy)
}

/// The rectangle holds every point, and a point lies on each of its sides.
pub proof fn law_bounds_are_tight(s: Seq<i32>)
    requires
        s.len() > 0,
    ensures
        forall|i: int| 0 <= i < s.len() ==> smallest(s) <= #[trigger] s[i] <= largest(s),
        s.contains(smallest(s)),
        s.contains(largest(s)),
    decreases s.len(),
{
    let b = s.drop_last();
    assert(s[s.len() - 1] == s.last());
    if b.len() > 0 {
        law_bounds_are_tight(b);
        assert forall|i: int| 0 <= i < s.len() implies smallest(s) <= #[trigger] s[i] <= largest(
            s,
        ) by {
            if i < b.len() {
                assert(b[i] == s[i]);
            }
        }
        if b.contains(smallest(b)) {
            let i = choose|i: int| 0 <= i < b.len() && b[i] == smallest(b);
            assert(s[i] == smallest(b));
        }
        if b.contains(largest(b)) {
            let i = choose|i: int| 0 <= i < b.len() && b[i] == largest(b);
            assert(s[i] == largest(b));
        }
    } else {
        assert(smallest(b) == i32::MAX && largest(b) == i32::MIN);
    }
}

/// Twice the area of the triangle, with the sign of its turn.
pub open spec fn doubled_area_of(a: MousePosition, b: MousePosition, c: MousePosition) -> int {
    a.x * (b.y - c.y) + b.x * (c.y - a.y) + c.x * (a.y - b.y)
}

/// Twice the area of the triangle, with the sign of its turn.
pub fn doubled_area(a: &MousePosition, b: &MousePosition, c: &MousePosition) -> (r: i128)
    ensures
        r == doubled_area_of(*a, *b, *c),
{
    let u: i128 = b.y as i128 - c.y as i128;
    let v: i128 = c.y as i128 - a.y as i128;
    let w: i128 = a.y as i128 - b.y as i128;
    proof {
        lemma_product_fits(a.x as int, u as int);
        lemma_product_fits(b.x as int, v as int);
        lemma_product_fits(c.x as int, w as int);
    }
    a.x as i128 * u + b.x as i128 * v + c.x as i128 * w
}

proof fn lemma_product_fits(x: int, d: int)
    requires
        -0x8000_0000 <= x <= 0x7fff_ffff,
        -0xffff_ffff <= d <= 0xffff_ffff,
    ensures
        -0x1_0000_0000_0000_0000 <= x * d <= 0x1_0000_0000_0000_0000,
{
    assert(-0x1_0000_0000_0000_0000 <= x * d <= 0x1_0000_0000_0000_0000) by (nonlinear_arith)
        requires
            -0x8000_0000 <= x <= 0x7fff_ffff,
            -0xffff_ffff <= d <= 0xffff_ffff,
    ;
}

/// The place of the point at or before `i` that was not removed; the first where all were.
pub open spec fn place_left(removed: Seq<bool>, i: int) -> int
    decreases i,
{
    if i > 0 && removed[i] {
        place_left(removed, i - 1)
    } else {
        i
    }
}

/// The place of the point at or after `i` that was not removed; the last where all were.
pub open spec fn place_right(removed: Seq<bool>, i: int) -> int
    decreases removed.len() - i,
{
    if i < removed.len() - 1 && removed[i] {
        place_right(removed, i + 1)
    } else {
        i
    }
}

/// The place of the point at or before `i` that was not removed; the first where all were.
pub fn seek_left(removed: &Vec<bool>, i: usize) -> (r: usize)
    requires
        i < removed.len(),
    ensures
        r == place_left(removed@, i as int),
        r <= i,
{
    let mut at: usize = i;
    while at > 0 && removed[at]
        invariant
            at <= i < removed.len(),
            place_left(removed@, at as int) == place_left(removed@, i as int),
        decreases at,
    {
        at -= 1;
    }
    at
}

/// The place of the point at or after `i` that was not removed; the last where all were.
pub fn seek_right(removed: &Vec<bool>, i: usize) -> (r: usize)
    requires
        i < removed.len(),
    ensures
        r == place_right(removed@, i as int),
        i <= r < removed.len(),
{
    let mut at: usize = i;
    while at < removed.len() - 1 && removed[at]
        invariant
            i <= at < removed.len(),
            place_right(removed@, at as int) == place_right(removed@, i as int),
        decreases removed.len() - at,
    {
        at += 1;
    }
    at
}

/// The corners of a triangle, by their places.
#[derive(Clone, Copy, Debug, PartialEq, Eq, Structural)]
pub struct Triangle {
    pub left: usize,
    pub middle: usize,
    pub right: usize,
}

/// The triangles to measure anew after the point at `idx` was removed: that of the nearest point
/// before it which is still there, and that of the nearest one after it. Each is spanned with the
/// nearest points that are still there on both sides; the ends of the path have none.
pub open spec fn new_triangles(removed: Seq<bool>, idx: int) -> (
    Option<Triangle>,
    Option<Triangle>,
) {
    let p = place_left(removed, idx - 1);
    let q = place_right(removed, idx + 1);
    let before = if p > 0 {
        Some(
            Triangle {
                left: place_left(removed, p - 1) as usize,
                middle: p as usize,
                right: q as usize,
            },
        )
    } else {
        None
    };
    let after = if q < removed.len() - 1 {
        Some(
            Triangle {
                left: p as usize,
                middle: q as usize,
                right: place_right(removed, q + 1) as usize,
            },
        )
    } else {
        None
    };
    (before, after)
}

/// The triangles to measure anew after the point at `idx` was removed.
pub fn triangles_after(removed: &Vec<bool>, idx: usize) -> (r: (Option<Triangle>, Option<Triangle>))
    requires
        0 < idx < removed.len() - 1,
    ensures
        r == new_triangles(removed@, idx as int),
        r.0 matches Some(t) ==> t.left < t.middle < idx < t.right < removed@.len(),
        r.1 matches Some(t) ==> t.left < idx < t.middle < t.right < removed@.len(),
{
    let p: usize = seek_left(removed, idx - 1);
    let q: usize = seek_right(removed, idx + 1);
    let before = if p > 0 {
        Some(Triangle { left: seek_left(removed, p - 1), middle: p, right: q })
    } else {
        None
    };
    let after = if q < removed.len() - 1 {
        Some(Triangle { left: p, middle: q, right: seek_right(removed, q + 1) })
    } else {
        None
    };
    (before, after)
}

proof fn lemma_place_left(removed: Seq<bool>, i: int)
    requires
        0 <= i < removed.len(),
        !removed[0],
    ensures
        0 <= place_left(removed, i) <= i,
        !removed[place_left(removed, i)],
        forall|m: int| place_left(removed, i) < m <= i ==> #[trigger] removed[m],
    decreases i,
{
    if i > 0 && removed[i] {
        lemma_place_left(removed, i - 1);
    }
}

proof fn lemma_place_right(removed: Seq<bool>, i: int)
    requires
        0 <= i < removed.len(),
        !removed[removed.len() - 1],
    ensures
        i <= place_right(removed, i) < removed.len(),
        !removed[place_right(removed, i)],
        forall|m: int| i <= m < place_right(removed, i) ==> #[trigger] removed[m],
    decreases removed.len() - i,
{
    if i < removed.len() - 1 && removed[i] {
        lemma_place_right(removed, i + 1);
    }
}

/// In a path that keeps its ends, the triangles to measure anew are spanned by points that are
/// neighbours now, and exactly the neighbours of the removed point that are no ends are measured.
pub proof fn law_triangles_span_neighbours(removed: Seq<bool>, idx: int)
    requires
        0 < idx < removed.len() - 1,
        removed.len() <= usize::MAX,
        removed[idx],
        !removed[0],
        !removed[removed.len() - 1],
    ensures
        ({
            let (before, after) = new_triangles(removed, idx);
            let p = place_left(removed, idx - 1);
            let q = place_right(removed, idx + 1);
            &&& adjacent(removed, p, q)
            &&& p < idx < q
            &&& before is Some <==> p > 0
            &&& before matches Some(t) ==> t.middle == p && adjacent(
                removed,
                t.left as int,
                t.middle as int,
            ) && adjacent(removed, t.middle as int, t.right as int)
            &&& after is Some <==> q < removed.len() - 1
            &&& after matches Some(t) ==> t.middle == q && adjacent(
                removed,
                t.left as int,
                t.middle as int,
            ) && adjacent(removed, t.middle as int, t.right as int)
        }),
{
    lemma_place_left(removed, idx - 1);
    lemma_place_right(removed, idx + 1);
    let p = place_left(removed, idx - 1);
    let q = place_right(removed, idx + 1);
    assert forall|m: int| p < m < q implies #[trigger] removed[m] by {}
    if p > 0 {
        lemma_place_left(removed, p - 1);
    }
    if q < removed.len() - 1 {
        lemma_place_right(removed, q + 1);
    }
}

/// The points that were not removed.
pub open spec fn points_kept(pts: Seq<MousePosition>, removed: Seq<bool>) -> Seq<MousePosition>
    decreases pts.len(),
{
    if pts.len() == 0 {
        Seq::empty()
    } else {
        let before = points_kept(pts.drop_last(), removed.drop_last());
        if removed.last() {
            before
        } else {
            before.push(pts.last())
        }
    }
}

/// The points that were not removed. A path keeps its first two points where fewer would be left.
pub fn kept_points(pts: &Vec<MousePosition>, removed: &Vec<bool>) -> (r: Vec<MousePosition>)
    requires
        removed.len() == pts.len(),
        pts.len() >= 2,
    ensures
        r@ == if points_kept(pts@, removed@).len() >= 2 {
            points_kept(pts@, removed@)
        } else {
            pts@.take(2)
        },
{
    let mut out: Vec<MousePosition> = Vec::new();
    let mut i: usize = 0;
    assert(out@ =~= points_kept(pts@.take(0), removed@.take(0)));
    while i < pts.len()
        invariant
            removed.len() == pts.len(),
            i <= pts.len(),
            out@ == points_kept(pts@.take(i as int), removed@.take(i as int)),
        decreases pts.len() - i,
    {
        proof {
            lemma_take_succ(pts@, i as int);
            lemma_take_succ(removed@, i as int);
        }
        if !removed[i] {
            out.push(pts[i]);
        }
        i += 1;
    }
    proof {
        lemma_take_all(pts@);
        lemma_take_all(removed@);
    }
    if out.len() < 2 {
        let mut two: Vec<MousePosition> = Vec::new();
        two.push(pts[0]);
        two.push(pts[1]);
        assert(two@ =~= pts@.take(2));
        return two;
    }
    out
}

/// The path with the last point of the whole at its end, where it does not end there already.
pub open spec fn ended(path: Seq<MousePosition>, last: MousePosition) -> Seq<MousePosition> {
    if path.len() > 0 && path.last() == last {
        path
    } else {
        path.push(last)
    }
}

/// Ends a path with the last point of the whole, where it does not end there already.
pub fn end_with(path: &mut Vec<MousePosition>, last: MousePosition)
    ensures
        final(path)@ == ended(old(path)@, last),
{
    if path.len() > 0 && path[path.len() - 1].x == last.x && path[path.len() - 1].y == last.y {
        return;
    }
    path.push(last);
}

/// Joins two simplified parts of a path that share a point.
pub fn join_parts(left: &mut Vec<MousePosition>, right: &Vec<MousePosition>)
    requires
        old(left).len() > 0,
    ensures
        final(left)@ == old(left)@.drop_last() + right@,
{
    let _ = left.pop();
    let ghost head = left@;
    let mut i: usize = 0;
    assert(left@ =~= head + right@.take(0));
    while i < right.len()
        invariant
            i <= right.len(),
            left@ == head + right@.take(i as int),
        decreases right.len() - i,
    {
        left.push(right[i]);
        i += 1;
        assert(left@ =~= head + right@.take(i as int));
    }
    assert(right@.take(right@.len() as int) =~= right@);
}

/// The neighbours of the points of a path while points are removed from it.
#[derive(Debug)]
pub struct Links {
    left: Vec<usize>,
    right: Vec<usize>,
    removed: Vec<bool>,
}

/// `l` and `r` are neighbours: both are there, and nothing between them is.
pub open spec fn adjacent(removed: Seq<bool>, l: int, r: int) -> bool {
    &&& 0 <= l < r < removed.len()
    &&& !removed[l]
    &&& !removed[r]
    &&& forall|m: int| l < m < r ==> #[trigger] removed[m]
}

impl Links {
    /// Which points were removed.
    pub closed spec fn removed(&self) -> Seq<bool> {
        self.removed@
    }

    /// The links lead from each point that is there to its neighbours, and the ends of the path
    /// are there.
    pub closed spec fn wf(&self) -> bool {
        let n = self.removed@.len();
        &&& n >= 3
        &&& self.left@.len() == n
        &&& self.right@.len() == n
        &&& !self.removed@[0]
        &&& !self.removed@[n - 1]
        &&& forall|i: int|
            0 < i < n && !self.removed@[i] ==> adjacent(
                self.removed@,
                #[trigger] self.left@[i] as int,
                i,
            )
        &&& forall|i: int|
            0 <= i < n - 1 && !self.removed@[i] ==> adjacent(
                self.removed@,
                i,
                #[trigger] self.right@[i] as int,
            )
    }

    /// The links of a path from which nothing was removed.
    pub fn new(n: usize) -> (r: Self)
        requires
            n >= 3,
        ensures
            r.wf(),
            r.removed() == Seq::new(n as nat, |i: int| false),
    {
        let mut left: Vec<usize> = Vec::new();
        let mut right: Vec<usize> = Vec::new();
        let mut removed: Vec<bool> = Vec::new();
        let mut i: usize = 0;
        while i < n
            invariant
                i <= n,
                left@.len() == i,
                right@.len() == i,
                removed@.len() == i,
                forall|j: int| 0 < j < i ==> (#[trigger] left@[j]) == j - 1,
                forall|j: int| 0 <= j < i && j < n - 1 ==> (#[trigger] right@[j]) == j + 1,
                forall|j: int| 0 <= j < i ==> !(#[trigger] removed@[j]),
            decreases n - i,
        {
            left.push(
                if i > 0 {
                    i - 1
                } else {
                    0
                },
            );
            right.push(
                if i < n - 1 {
                    i + 1
                } else {
                    n - 1
                },
            );
            removed.push(false);
            i += 1;
        }
        assert(removed@ =~= Seq::new(n as nat, |i: int| false));
        Links { left, right, removed }
    }

    /// Whether the point was removed.
    pub fn is_removed(&self, idx: usize) -> (r: bool)
        requires
            idx < self.removed().len(),
        ensures
            r == self.removed()[idx as int],
    {
        self.removed[idx]
    }

    /// The neighbours of a point inside the path.
    pub fn neighbours(&self, idx: usize) -> (r: (usize, usize))
        requires
            self.wf(),
            0 < idx < self.removed().len() - 1,
            !self.removed()[idx as int],
        ensures
            adjacent(self.removed(), r.0 as int, idx as int),
            adjacent(self.removed(), idx as int, r.1 as int),
    {
        assert(!self.removed@[idx as int]);
        (self.left[idx], self.right[idx])
    }

    /// Removes a point inside the path and links its neighbours.
    pub fn remove(&mut self, idx: usize)
        requires
            old(self).wf(),
            0 < idx < old(self).removed().len() - 1,
            !old(self).removed()[idx as int],
        ensures
            final(self).wf(),
            final(self).removed() == old(self).removed().update(idx as int, true),
    {
        let (l, r) = self.neighbours(idx);
        let ghost before = *self;
        self.removed.set(idx, true);
        self.right.set(l, r);
        self.left.set(r, l);
        proof {
            lemma_unlinked(before, *self, l, idx as int, r);
        }
    }

    /// The points that are still there.
    pub fn kept(&self, pts: &Vec<MousePosition>) -> (r: Vec<MousePosition>)
        requires
            pts.len() == self.removed().len(),
            pts.len() >= 2,
        ensures
            r@ == if points_kept(pts@, self.removed()).len() >= 2 {
                points_kept(pts@, self.removed())
            } else {
                pts@.take(2)
            },
    {
        kept_points(pts, &self.removed)
    }
}

proof fn lemma_unlinked(a: Links, b: Links, l: usize, idx: int, r: usize)
    requires
        a.wf(),
        0 < idx < a.removed@.len() - 1,
        adjacent(a.removed@, l as int, idx),
        adjacent(a.removed@, idx, r as int),
        b.removed@ == a.removed@.update(idx, true),
        b.right@ == a.right@.update(l as int, r),
        b.left@ == a.left@.update(r as int, l),
    ensures
        b.wf(),
{
    let before = a.removed@;
    let after = b.removed@;
    let n = after.len();
    assert forall|m: int| l < m < r implies #[trigger] after[m] by {
        if m < idx || m > idx {
            assert(before[m]);
        }
    }
    assert(adjacent(after, l as int, r as int));
    assert forall|i: int| 0 < i < n && !after[i] implies adjacent(
        after,
        #[trigger] b.left@[i] as int,
        i,
    ) by {
        assert(i != idx);
        assert(!before[i]);
        if i != r {
            let k = a.left@[i] as int;
            assert(adjacent(before, k, i));
            if k == idx {
                lemma_one_neighbour(before, idx, i, r as int);
            }
            lemma_still_adjacent(before, k, i, idx);
        }
    }
    assert forall|i: int| 0 <= i < n - 1 && !after[i] implies adjacent(
        after,
        i,
        #[trigger] b.right@[i] as int,
    ) by {
        assert(i != idx);
        assert(!before[i]);
        if i != l {
            let k = a.right@[i] as int;
            assert(adjacent(before, i, k));
            if k == idx {
                lemma_one_neighbour_left(before, i, l as int, idx);
            }
            lemma_still_adjacent(before, i, k, idx);
        }
    }
}

/// A point has one neighbour on its right.
proof fn lemma_one_neighbour(removed: Seq<bool>, x: int, y: int, z: int)
    requires
        adjacent(removed, x, y),
        adjacent(removed, x, z),
    ensures
        y == z,
{
    if y < z {
        assert(removed[y]);
    } else if z < y {
        assert(removed[z]);
    }
}

/// A point has one neighbour on its left.
proof fn lemma_one_neighbour_left(removed: Seq<bool>, x: int, y: int, z: int)
    requires
        adjacent(removed, x, z),
        adjacent(removed, y, z),
    ensures
        x == y,
{
    if x < y {
        assert(removed[y]);
    } else if y < x {
        assert(removed[x]);
    }
}

/// Neighbours other than a removed point stay neighbours.
proof fn lemma_still_adjacent(before: Seq<bool>, x: int, y: int, idx: int)
    requires
        adjacent(before, x, y),
        0 <= idx < before.len(),
        x != idx,
        y != idx,
    ensures
        adjacent(before.update(idx, true), x, y),
{
    let after = before.update(idx, true);
    assert forall|m: int| x < m < y implies #[trigger] after[m] by {
        assert(before[m]);
    }
}

/// A path that keeps its ends begins and ends as the whole does.
pub proof fn law_kept_path_has_both_ends(pts: Seq<MousePosition>, removed: Seq<bool>)
    requires
        pts.len() >= 2,
        removed.len() == pts.len(),
        !removed[0],
        !removed[removed.len() - 1],
    ensures
        points_kept(pts, removed).len() >= 2,
        points_kept(pts, removed)[0] == pts[0],
        points_kept(pts, removed).last() == pts.last(),
{
    lemma_first_kept(pts.drop_last(), removed.drop_last());
}

proof fn lemma_first_kept(pts: Seq<MousePosition>, removed: Seq<bool>)
    requires
        pts.len() >= 1,
        removed.len() == pts.len(),
        !removed[0],
    ensures
        points_kept(pts, removed).len() >= 1,
        points_kept(pts, removed)[0] == pts[0],
    decreases pts.len(),
{
    if pts.len() > 1 {
        lemma_first_kept(pts.drop_last(), removed.drop_last());
    } else {
        assert(points_kept(pts.drop_last(), removed.drop_last()) =~= Seq::empty());
    }
}

/// Two numbers with a colon between them ask for the rows from the first to the second, both
/// included, as far as there are any.
pub proof fn law_range_asks_for_rows_between(a: nat, b: nat, total: int)
    requires
        a <= usize::MAX,
        b <= usize::MAX,
        0 <= total <= usize::MAX,
    ensures
        ({
            let rows = rows_in_range(decimal(a) + seq![':'] + decimal(b), total);
            let last = if total == 0 {
                0
            } else if b < total {
                b as int
            } else {
                total - 1
            };
            &&& rows.len() == (if a <= last {
                last - a + 1
            } else {
                0
            })
            &&& forall|i: int| 0 <= i < rows.len() ==> #[trigger] rows[i] == a + i
        }),
{
    let left = decimal(a);
    let right = decimal(b);
    let s = left + seq![':'] + right;
    let at = left.len() as int;
    law_decimal_is_read_back(a);
    law_decimal_is_read_back(b);
    lemma_digits(a);
    lemma_digits(b);
    assert forall|i: int| 0 <= i < s.len() && i != at implies s[i] != ':' by {
        if i < at {
            assert(s[i] == left[i]);
            assert(is_digit(left[i]));
        } else {
            assert(s[i] == right[i - at - 1]);
            assert(is_digit(right[i - at - 1]));
        }
    }
    assert(only_colon(s, at));
    let c = choose|c: int| only_colon(s, c);
    assert(only_colon(s, c));
    assert(c == at);
    assert(s.take(at) =~= left);
    assert(s.skip(at + 1) =~= right);
}

/// The last rows asked for are the last ones, as many as there are at most, in order.
pub proof fn law_last_rows_are_the_last(n: usize, total: int)
    requires
        0 <= total <= usize::MAX,
    ensures
        ({
            let rows = rows_asked(RowChoice::Last(n), total);
            &&& rows.len() == (if n <= total {
                n as int
            } else {
                total
            })
            &&& forall|i: int|
                0 <= i < rows.len() ==> #[trigger] rows[i] == total - rows.len() + i
        }),
{
}

/// A limit keeps the last rows and drops the others, in order.
pub proof fn law_limit_keeps_the_last(rows: Seq<usize>, limit: usize)
    ensures
        last_rows(rows, None) == rows,
        last_rows(rows, Some(limit)).len() <= limit,
        last_rows(rows, Some(limit)).len() == limit || last_rows(rows, Some(limit)) == rows,
        forall|i: int|
            0 <= i < last_rows(rows, Some(limit)).len() ==> #[trigger] last_rows(
                rows,
                Some(limit),
            )[i] == rows[rows.len() - last_rows(rows, Some(limit)).len() + i],
{
}

/// A path keeps exactly the points that were not removed, in order.
pub proof fn law_kept_points_are_those_not_removed(
    pts: Seq<MousePosition>,
    removed: Seq<bool>,
    p: MousePosition,
    gone: bool,
)
    requires
        removed.len() == pts.len(),
    ensures
        points_kept(Seq::empty(), Seq::empty()) == Seq::<MousePosition>::empty(),
        points_kept(pts.push(p), removed.push(gone)) == if gone {
            points_kept(pts, removed)
        } else {
            points_kept(pts, removed).push(p)
        },
{
    assert(pts.push(p).drop_last() =~= pts);
    assert(removed.push(gone).drop_last() =~= removed);
}

/// Twice the area of a triangle is its base times its height: that of one with a level base is the
/// length of the base times how far the third point lies from it. It stays the same when the
/// triangle is moved, and changes its sign when two of its points change places.
pub proof fn law_doubled_area_is_base_times_height(
    a: MousePosition,
    b: MousePosition,
    c: MousePosition,
)
    ensures
        a.y == b.y ==> doubled_area_of(a, b, c) == (b.x - a.x) * (c.y - a.y),
        doubled_area_of(b, a, c) == -doubled_area_of(a, b, c),
        doubled_area_of(b, c, a) == doubled_area_of(a, b, c),
        doubled_area_of(a, b, c) == (b.x - a.x) * (c.y - a.y) - (c.x - a.x) * (b.y - a.y),
{
    let (ax, ay, bx, by, cx, cy) = (
        a.x as int,
        a.y as int,
        b.x as int,
        b.y as int,
        c.x as int,
        c.y as int,
    );
    assert(ax * (by - cy) + bx * (cy - ay) + cx * (ay - by) == (bx - ax) * (cy - ay) - (cx - ax) * (
    by - ay)) by (nonlinear_arith);
    assert(bx * (ay - cy) + ax * (cy - by) + cx * (by - ay) == -(ax * (by - cy) + bx * (cy - ay)
        + cx * (ay - by))) by (nonlinear_arith);
    if ay == by {
        assert((cx - ax) * (by - ay) == 0) by (nonlinear_arith)
            requires
                ay == by,
        ;
    }
}

/// A path that was ended ends with the last point, and is otherwise as it was.
pub proof fn law_ended_path_ends_with_the_last_point(
    path: Seq<MousePosition>,
    last: MousePosition,
)
    ensures
        ended(path, last).len() > 0,
        ended(path, last).last() == last,
        path.is_prefix_of(ended(path, last)),
        ended(path, last).len() <= path.len() + 1,
        ended(ended(path, last), last) == ended(path, last),
{
}

} // verus!
