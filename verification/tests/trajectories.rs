use kronical::events::{MouseEventData, MouseEventKind, MousePosition};
use kronical::thinning::{farthest_beyond, AreaThinning, ErrorThinning, Settled, WaitingPlaces};
use kronical::time::Timestamp;
use kronical::trajectory::{
    bounds, doubled_area, end_with, join_parts, kept_points, parse_range, raw_point,
    raw_points_query, seek_left, seek_right, select_rows, sort_points, triangles_after, Links,
    RawMousePoint, RowChoice, Triangle,
};

fn p(x: i32, y: i32) -> MousePosition {
    MousePosition { x, y }
}

#[test]
fn ranges_select_rows() {
    assert_eq!(parse_range("1:3", 10), vec![1, 2, 3]);
    assert_eq!(parse_range("7:", 10), vec![7, 8, 9]);
    assert_eq!(parse_range(":2", 10), vec![0, 1, 2]);
    assert_eq!(parse_range("8:99", 10), vec![8, 9]);
    assert_eq!(parse_range("x:y", 3), vec![0, 1, 2]);
    assert_eq!(parse_range("5:2", 10), Vec::<usize>::new());
    assert_eq!(parse_range("5", 10), Vec::<usize>::new());
    assert_eq!(parse_range("1:2:3", 10), Vec::<usize>::new());
    assert_eq!(parse_range("0:0", 0), vec![0]);
}

#[test]
fn rows_are_limited_from_the_end() {
    let all = RowChoice::Last(4);
    assert_eq!(select_rows(&all, 10, None), vec![6, 7, 8, 9]);
    assert_eq!(select_rows(&all, 10, Some(2)), vec![8, 9]);
    assert_eq!(select_rows(&all, 3, Some(9)), vec![0, 1, 2]);
    assert_eq!(select_rows(&all, 0, None), Vec::<usize>::new());
    assert_eq!(
        select_rows(&RowChoice::Indices(vec![5, 1, 5]), 10, Some(2)),
        vec![1, 5]
    );
    assert_eq!(
        select_rows(&RowChoice::Range("2:4".to_string()), 10, Some(1)),
        vec![4]
    );
}

#[test]
fn queries_hold_a_mark_for_each_number() {
    assert!(raw_points_query(3).contains("IN (?,?,?) ORDER"));
    assert!(raw_points_query(1).contains("IN (?) ORDER"));
}

#[test]
fn only_motion_makes_points() {
    let at = Timestamp::from_timestamp(1, 0).unwrap();
    let mut data = MouseEventData {
        position: p(3, 4),
        button: None,
        click_count: None,
        event_type: Some(MouseEventKind::Moved),
        wheel_amount: None,
        wheel_rotation: None,
        wheel_axis: None,
    };
    let point = raw_point(at, 9, &data).unwrap();
    assert_eq!((point.id, point.pos), (9, p(3, 4)));
    data.event_type = Some(MouseEventKind::Dragged);
    assert!(raw_point(at, 9, &data).is_some());
    data.event_type = Some(MouseEventKind::Clicked);
    assert!(raw_point(at, 9, &data).is_none());
    data.event_type = None;
    assert!(raw_point(at, 9, &data).is_none());
}

#[test]
fn points_are_sorted_by_time_and_number() {
    let point = |secs: i64, id: u64| RawMousePoint {
        ts: Timestamp::from_timestamp(secs, 0).unwrap(),
        id,
        pos: p(0, 0),
        kind: MouseEventKind::Moved,
    };
    let sorted = sort_points(vec![point(2, 1), point(1, 9), point(1, 3), point(0, 5)]);
    let seen: Vec<(i64, u64)> = sorted.iter().map(|q| (q.ts.timestamp(), q.id)).collect();
    assert_eq!(seen, vec![(0, 5), (1, 3), (1, 9), (2, 1)]);
}

#[test]
fn bounds_hold_all_points() {
    assert_eq!(bounds(&[p(3, -1), p(-2, 5), p(0, 0)]), (-2, -1, 3, 5));
    assert_eq!(bounds(&[]), (i32::MAX, i32::MAX, i32::MIN, i32::MIN));
}

#[test]
fn areas_are_exact() {
    assert_eq!(doubled_area(&p(0, 0), &p(4, 0), &p(0, 3)), 12);
    assert_eq!(doubled_area(&p(0, 0), &p(1, 1), &p(2, 2)), 0);
    let (lo, hi) = (i32::MIN, i32::MAX);
    assert_eq!(
        doubled_area(&p(lo, lo), &p(hi, lo), &p(lo, hi)),
        (u32::MAX as i128) * (u32::MAX as i128)
    );
}

#[test]
fn neighbours_that_were_not_removed_are_found() {
    let removed = vec![false, true, true, false, true];
    assert_eq!(seek_left(&removed, 2), 0);
    assert_eq!(seek_left(&removed, 3), 3);
    assert_eq!(seek_right(&removed, 1), 3);
    assert_eq!(seek_right(&removed, 4), 4);
    let triangle = |left, middle, right| {
        Some(Triangle {
            left,
            middle,
            right,
        })
    };
    let removed = vec![false, false, true, false, false];
    assert_eq!(
        triangles_after(&removed, 2),
        (triangle(0, 1, 3), triangle(1, 3, 4))
    );
    // Neighbours are looked for beyond points that went before.
    let removed = vec![false, false, true, true, true, false, false];
    assert_eq!(
        triangles_after(&removed, 3),
        (triangle(0, 1, 5), triangle(1, 5, 6))
    );
    assert_eq!(triangles_after(&vec![false, true, false], 1), (None, None));
}

/// Removes points while the smallest area is below the limit.
fn thinned(pts: &Vec<MousePosition>, limit: f32) -> Vec<MousePosition> {
    let area = |t: Triangle| {
        let doubled = doubled_area(&pts[t.left], &pts[t.middle], &pts[t.right]);
        (0.5 * (doubled as f32).abs()).to_bits()
    };
    let inner = (1..pts.len() - 1)
        .map(|i| {
            area(Triangle {
                left: i - 1,
                middle: i,
                right: i + 1,
            })
        })
        .collect();
    let mut thinning = AreaThinning::new(&inner);
    while let Some(idx) = thinning.remove_next(limit.to_bits()) {
        let (before, after) = thinning.triangles(idx);
        for t in [before, after].into_iter().flatten() {
            thinning.measured(t.middle, area(t));
        }
    }
    thinning.kept(pts)
}

#[test]
fn points_go_by_their_effective_area() {
    let pts = vec![p(0, 0), p(10, 10), p(20, 0), p(30, -1)];
    assert_eq!(thinned(&pts, 45.0), pts);
    assert_eq!(thinned(&pts, 60.0), vec![p(0, 0), p(10, 10), p(30, -1)]);
    assert_eq!(thinned(&pts, 156.0), vec![p(0, 0), p(30, -1)]);
    // A zigzag with one peak: the peak outlasts the small teeth on both sides.
    let teeth: Vec<MousePosition> = [0, 1, 0, 1, 50, 1, 0, 1, 0]
        .iter()
        .enumerate()
        .map(|(x, &y)| p(x as i32 * 10, y))
        .collect();
    assert_eq!(
        thinned(&teeth, 200.0),
        vec![p(0, 0), p(30, 1), p(40, 50), p(50, 1), p(80, 0)]
    );
}

#[test]
fn paths_keep_their_ends() {
    let pts = vec![p(0, 0), p(1, 1), p(2, 0), p(3, 3)];
    assert_eq!(
        kept_points(&pts, &vec![false, true, true, false]),
        vec![p(0, 0), p(3, 3)]
    );
    assert_eq!(
        kept_points(&pts, &vec![true, true, true, false]),
        vec![p(0, 0), p(1, 1)]
    );
    let mut path = vec![p(0, 0)];
    end_with(&mut path, p(3, 3));
    end_with(&mut path, p(3, 3));
    assert_eq!(path, vec![p(0, 0), p(3, 3)]);
    let mut left = vec![p(0, 0), p(1, 1)];
    join_parts(&mut left, &vec![p(1, 1), p(2, 0)]);
    assert_eq!(left, vec![p(0, 0), p(1, 1), p(2, 0)]);
}

#[test]
fn links_lead_to_the_nearest_points_left() {
    let mut links = Links::new(6);
    assert_eq!(links.neighbours(2), (1, 3));
    links.remove(2);
    links.remove(3);
    assert!(links.is_removed(2));
    assert_eq!(links.neighbours(1), (0, 4));
    assert_eq!(links.neighbours(4), (1, 5));
    let pts = (0..6).map(|i| p(i, i)).collect();
    assert_eq!(
        links.kept(&pts),
        vec![p(0, 0), p(1, 1), p(4, 4), p(5, 5)]
    );
}

#[test]
fn the_farthest_point_splits_a_path() {
    assert_eq!(farthest_beyond(&vec![3, 9, 9, 1], 8), Some(1));
    assert_eq!(farthest_beyond(&vec![3, 9, 9, 1], 9), None);
    assert_eq!(farthest_beyond(&vec![], 0), None);
}

#[test]
fn the_smallest_place_comes_first() {
    let mut w = WaitingPlaces::new();
    for (size, place) in [(5, 1), (2, 2), (2, 3), (7, 4)] {
        w.push(size, place);
    }
    let mut seen = Vec::new();
    while let Some((_, place)) = w.pop_smallest() {
        seen.push(place);
    }
    assert_eq!(seen, vec![2, 3, 1, 4]);
}

#[test]
fn floats_are_ordered_as_their_bits() {
    let sizes = [0.0f32, 1e-40, 0.5, 1.0, 1.5, 1e10, f32::INFINITY];
    for w in sizes.windows(2) {
        assert!(w[0].to_bits() < w[1].to_bits());
    }
}

#[test]
fn small_triangles_go_first() {
    let pts: Vec<MousePosition> = [(0, 0), (1, 1), (2, 0), (3, 9), (4, 0)]
        .iter()
        .map(|&(x, y)| p(x, y))
        .collect();
    let area = |t: Triangle| doubled_area(&pts[t.left], &pts[t.middle], &pts[t.right]).unsigned_abs() as u32;
    let inner = (1..4)
        .map(|i| {
            area(Triangle {
                left: i - 1,
                middle: i,
                right: i + 1,
            })
        })
        .collect();
    assert_eq!(inner, vec![2, 10, 18]);
    let mut thinning = AreaThinning::new(&inner);
    assert_eq!(thinning.remove_next(2), None);
    let mut thinning = AreaThinning::new(&inner);
    assert_eq!(thinning.remove_next(11), Some(1));
    let (before, after) = thinning.triangles(1);
    assert_eq!(before, None);
    thinning.measured(2, area(after.unwrap()));
    assert_eq!(thinning.remove_next(100), Some(3));
    assert_eq!(thinning.remove_next(100), Some(2));
    assert_eq!(thinning.remove_next(100), None);
    assert_eq!(thinning.kept(&pts), vec![p(0, 0), p(4, 0)]);
}

#[test]
fn near_points_go_first() {
    let mut thinning = ErrorThinning::new(5);
    for (i, size) in [(1, 30), (2, 10), (3, 20)] {
        thinning.measured(i, size);
    }
    assert_eq!(thinning.next(), Some((10, 2)));
    assert_eq!(thinning.neighbours(2), (1, 3));
    assert_eq!(thinning.settle(2, 15, true, 25), Settled::Waits);
    assert_eq!(thinning.next(), Some((15, 2)));
    assert_eq!(
        thinning.settle(2, 15, false, 25),
        Settled::Removed { left: 1, right: 3 }
    );
    assert_eq!(thinning.next(), Some((20, 3)));
    assert_eq!(thinning.settle(3, 26, false, 25), Settled::Done);
    // What was not next still waits.
    assert_eq!(thinning.next(), Some((30, 1)));
    assert_eq!(thinning.next(), None);
    let pts = (0..5).map(|i| p(i, 0)).collect();
    assert_eq!(
        thinning.kept(&pts),
        vec![p(0, 0), p(1, 0), p(3, 0), p(4, 0)]
    );
}
