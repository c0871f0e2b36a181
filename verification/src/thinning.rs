//! Which points of a path go first when it is thinned out. Sizes and distances are measured
//! elsewhere, as numbers that are not negative in the binary format of single precision, which
//! are ordered as their bits are.

use crate::events::MousePosition;
use crate::grouping::{kept, lemma_kept};
use crate::trajectory::{
    adjacent, kept_points, law_kept_path_has_both_ends, new_triangles, points_kept,
    triangles_after, Links, Triangle,
};
use crate::views::{lemma_take_all, lemma_take_succ};
use vstd::prelude::*;

verus! {

/// The first of the largest numbers stands at `i`.
pub open spec fn is_first_largest(s: Seq<u32>, i: int) -> bool {
    &&& 0 <= i < s.len()
    &&& forall|j: int| 0 <= j < s.len() ==> #[trigger] s[j] <= s[i]
    &&& forall|j: int| 0 <= j < i ==> #[trigger] s[j] < s[i]
}

/// The place of the point farthest from the chord, where it lies farther than the limit; the
/// first of several.
pub fn farthest_beyond(distances: &Vec<u32>, limit: u32) -> (r: Option<usize>)
    ensures
        match r {
            Some(i) => is_first_largest(distances@, i as int) && distances@[i as int] > limit,
            None => forall|j: int| 0 <= j < distances@.len() ==> #[trigger] distances@[j] <= limit,
        },
{
    if distances.len() == 0 {
        return None;
    }
    let mut best: usize = 0;
    let mut i: usize = 1;
    while i < distances.len()
        invariant
            best < i <= distances.len(),
            is_first_largest(distances@.take(i as int), best as int),
        decreases distances.len() - i,
    {
        let ghost before = distances@.take(i as int);
        let ghost after = distances@.take(i + 1);
        assert(forall|j: int| 0 <= j < i ==> after[j] == #[trigger] before[j]);
        if distances[i] > distances[best] {
            best = i;
        }
        i += 1;
    }
    assert(distances@.take(i as int) =~= distances@);
    if distances[best] > limit {
        Some(best)
    } else {
        None
    }
}

/// The places that wait, each with its size.
pub struct WaitingPlaces {
    items: Vec<(u32, usize)>,
}

impl View for WaitingPlaces {
    type V = Seq<(u32, usize)>;

    closed spec fn view(&self) -> Seq<(u32, usize)> {
        self.items@
    }
}

/// No place that waits has a smaller size than the one at `i`, and none before it has the same.
pub open spec fn is_first_smallest(s: Seq<(u32, usize)>, i: int) -> bool {
    &&& 0 <= i < s.len()
    &&& forall|j: int| 0 <= j < s.len() ==> s[i].0 <= (#[trigger] s[j]).0
    &&& forall|j: int| 0 <= j < i ==> s[i].0 < (#[trigger] s[j]).0
}

impl WaitingPlaces {
    pub fn new() -> (r: Self)
        ensures
            r@ == Seq::<(u32, usize)>::empty(),
    {
        WaitingPlaces { items: Vec::new() }
    }

    pub fn push(&mut self, size: u32, place: usize)
        ensures
            final(self)@ == old(self)@.push((size, place)),
    {
        self.items.push((size, place));
    }

    /// Where the place with the smallest size stands; the one that came first, of several.
    pub fn smallest(&self) -> (r: Option<usize>)
        ensures
            match r {
                Some(i) => is_first_smallest(self@, i as int),
                None => self@.len() == 0,
            },
    {
        if self.items.len() == 0 {
            return None;
        }
        let mut best: usize = 0;
        let mut i: usize = 1;
        while i < self.items.len()
            invariant
                best < i <= self.items@.len(),
                forall|j: int|
                    0 <= j < i ==> self.items@[best as int].0 <= (#[trigger] self.items@[j]).0,
                forall|j: int|
                    0 <= j < best ==> self.items@[best as int].0 < (#[trigger] self.items@[j]).0,
            decreases self.items@.len() - i,
        {
            if self.items[i].0 < self.items[best].0 {
                best = i;
            }
            i += 1;
        }
        Some(best)
    }

    /// Takes out the place with the smallest size; the one that came first, of several.
    pub fn pop_smallest(&mut self) -> (r: Option<(u32, usize)>)
        ensures
            match r {
                Some(item) => exists|i: int| #[trigger]
                    is_first_smallest(old(self)@, i) && item == old(self)@[i] && final(self)@
                        == old(self)@.remove(i),
                None => old(self)@.len() == 0 && final(self)@ == old(self)@,
            },
    {
        match self.smallest() {
            Some(i) => {
                let item = self.items[i];
                let _ = self.items.remove(i);
                assert(is_first_smallest(old(self)@, i as int));
                Some(item)
            },
            None => None,
        }
    }
}

/// Thins a path out by the areas of the triangles that its points span: the smallest goes first.
pub struct AreaThinning {
    removed: Vec<bool>,
    sizes: Vec<u32>,
    waiting: WaitingPlaces,
}

/// The entry counts: its point is there, and its size is the one measured last.
pub open spec fn counts(removed: Seq<bool>, sizes: Seq<u32>, item: (u32, usize)) -> bool {
    !removed[item.1 as int] && sizes[item.1 as int] == item.0
}

/// The entries that count.
pub open spec fn counting(removed: Seq<bool>, sizes: Seq<u32>) -> spec_fn((u32, usize)) -> bool {
    |item: (u32, usize)| counts(removed, sizes, item)
}

/// The entries whose points are there.
pub open spec fn present(removed: Seq<bool>) -> spec_fn((u32, usize)) -> bool {
    |item: (u32, usize)| !removed[item.1 as int]
}

proof fn lemma_remove_contains(s: Seq<(u32, usize)>, k: int, item: (u32, usize))
    requires
        0 <= k < s.len(),
        s.contains(item),
        item != s[k],
    ensures
        s.remove(k).contains(item),
{
    let m = choose|m: int| 0 <= m < s.len() && s[m] == item;
    assert(s.remove(k)[if m < k {
        m
    } else {
        m - 1
    }] == item);
}

impl AreaThinning {
    /// Which points were removed.
    pub closed spec fn removed(&self) -> Seq<bool> {
        self.removed@
    }

    /// The size measured last of each point.
    pub closed spec fn sizes(&self) -> Seq<u32> {
        self.sizes@
    }

    /// The points that wait.
    pub closed spec fn waiting(&self) -> Seq<(u32, usize)> {
        self.waiting@
    }

    /// The ends of the path are there, and only points between them wait.
    pub open spec fn wf(&self) -> bool {
        let n = self.removed().len();
        &&& n >= 3
        &&& self.sizes().len() == n
        &&& !self.removed()[0]
        &&& !self.removed()[n - 1]
        &&& forall|i: int|
            0 <= i < self.waiting().len() ==> 0 < (#[trigger] self.waiting()[i]).1 < n - 1
    }

    /// Starts with a path whose points between the ends have the given sizes.
    pub fn new(inner: &Vec<u32>) -> (r: Self)
        requires
            inner.len() >= 1,
            inner.len() <= usize::MAX - 2,
        ensures
            r.wf(),
            r.removed() == Seq::new((inner@.len() + 2) as nat, |i: int| false),
            forall|i: int| 0 <= i < inner@.len() ==> r.sizes()[i + 1] == #[trigger] inner@[i],
            r.waiting() == Seq::new(inner@.len(), |i: int| (inner@[i], (i + 1) as usize)),
    {
        let mut removed: Vec<bool> = Vec::new();
        let mut sizes: Vec<u32> = Vec::new();
        let mut waiting = WaitingPlaces::new();
        removed.push(false);
        sizes.push(u32::MAX);
        let mut i: usize = 0;
        while i < inner.len()
            invariant
                i <= inner.len(),
                inner.len() <= usize::MAX - 2,
                removed@.len() == i + 1,
                sizes@.len() == i + 1,
                waiting@.len() == i,
                forall|j: int| 0 <= j <= i ==> !(#[trigger] removed@[j]),
                forall|j: int| 0 <= j < i ==> sizes@[j + 1] == #[trigger] inner@[j],
                forall|j: int|
                    0 <= j < i ==> #[trigger] waiting@[j] == (inner@[j], (j + 1) as usize),
            decreases inner.len() - i,
        {
            removed.push(false);
            sizes.push(inner[i]);
            waiting.push(inner[i], i + 1);
            i += 1;
        }
        removed.push(false);
        sizes.push(u32::MAX);
        assert(removed@ =~= Seq::new((inner@.len() + 2) as nat, |i: int| false));
        assert(waiting@ =~= Seq::new(inner@.len(), |i: int| (inner@[i], (i + 1) as usize)));
        AreaThinning { removed, sizes, waiting }
    }

    /// The entries that count, in order: what waits once all others are dropped.
    pub open spec fn live(&self) -> Seq<(u32, usize)> {
        kept(self.waiting(), counting(self.removed(), self.sizes()))
    }

    /// Drops the entries that do not count.
    fn sweep(&mut self)
        requires
            old(self).wf(),
        ensures
            final(self).wf(),
            final(self).removed() == old(self).removed(),
            final(self).sizes() == old(self).sizes(),
            final(self).waiting() == old(self).live(),
    {
        let ghost all = self.waiting@;
        let ghost keep = counting(self.removed@, self.sizes@);
        let mut live = WaitingPlaces::new();
        let mut i: usize = 0;
        assert(live@ =~= kept(all.take(0), keep));
        while i < self.waiting.items.len()
            invariant
                self.wf(),
                all == self.waiting@,
                keep == counting(self.removed@, self.sizes@),
                i <= all.len(),
                live@ == kept(all.take(i as int), keep),
            decreases all.len() - i,
        {
            proof {
                lemma_take_succ(all, i as int);
                assert(0 < self.waiting()[i as int].1 < self.removed().len() - 1);
            }
            let (size, idx) = self.waiting.items[i];
            if !self.removed[idx] && self.sizes[idx] == size {
                live.push(size, idx);
            }
            i += 1;
        }
        proof {
            lemma_take_all(all);
            lemma_kept(all, keep);
            assert forall|m: int| 0 <= m < live@.len() implies 0 < (#[trigger] live@[m]).1
                < self.removed@.len() - 1 by {
                assert(all.contains(live@[m]));
                let k = choose|k: int| 0 <= k < all.len() && all[k] == live@[m];
                assert(0 < self.waiting()[k].1 < self.removed().len() - 1);
            }
        }
        self.waiting = live;
    }

    /// Removes the point with the smallest size, where that is below the limit. Of what waits
    /// only the entries that count are left, without that of the point.
    pub fn remove_next(&mut self, limit: u32) -> (r: Option<usize>)
        requires
            old(self).wf(),
        ensures
            final(self).wf(),
            final(self).sizes() == old(self).sizes(),
            match r {
                Some(i) => {
                    &&& exists|k: int| #[trigger]
                        is_first_smallest(old(self).live(), k) && old(self).live()[k].1 == i
                            && final(self).waiting() == old(self).live().remove(k)
                    &&& 0 < i < old(self).removed().len() - 1
                    &&& !old(self).removed()[i as int]
                    &&& final(self).removed() == old(self).removed().update(i as int, true)
                    &&& old(self).sizes()[i as int] < limit
                    &&& forall|j: int|
                        0 <= j < old(self).waiting().len() && counts(
                            old(self).removed(),
                            old(self).sizes(),
                            #[trigger] old(self).waiting()[j],
                        ) ==> old(self).sizes()[i as int] <= old(self).waiting()[j].0
                    &&& forall|j: int|
                        0 <= j < old(self).waiting().len() && counts(
                            old(self).removed(),
                            old(self).sizes(),
                            #[trigger] old(self).waiting()[j],
                        ) && old(self).waiting()[j].1 != i ==> final(self).waiting().contains(
                            old(self).waiting()[j],
                        )
                },
                None => {
                    &&& final(self).removed() == old(self).removed()
                    &&& final(self).waiting() == old(self).live()
                    &&& forall|j: int|
                        0 <= j < old(self).waiting().len() && counts(
                            old(self).removed(),
                            old(self).sizes(),
                            #[trigger] old(self).waiting()[j],
                        ) ==> old(self).waiting()[j].0 >= limit
                },
            },
    {
        let ghost all = self.waiting();
        let ghost live = self.live();
        proof {
            lemma_kept(all, counting(self.removed(), self.sizes()));
            assert forall|j: int|
                0 <= j < all.len() && counts(
                    self.removed(),
                    self.sizes(),
                    #[trigger] all[j],
                ) implies live.contains(all[j]) by {
                assert(all.contains(all[j]));
                assert(counting(self.removed(), self.sizes())(all[j]));
            }
        }
        self.sweep();
        let k: usize = match self.waiting.smallest() {
            Some(k) => k,
            None => {
                return None;
            },
        };
        let (size, idx) = self.waiting.items[k];
        assert(counting(old(self).removed(), old(self).sizes())(live[k as int]));
        assert(0 < self.waiting()[k as int].1 < self.removed().len() - 1);
        if size >= limit {
            return None;
        }
        let _ = self.waiting.items.remove(k);
        self.removed.set(idx, true);
        proof {
            assert(is_first_smallest(old(self).live(), k as int));
            assert forall|m: int| 0 <= m < self.waiting().len() implies 0 < (
            #[trigger] self.waiting()[m]).1 < self.removed().len() - 1 by {
                let n = if m < k {
                    m
                } else {
                    m + 1
                };
                assert(self.waiting()[m] == live[n]);
            }
            assert forall|j: int|
                0 <= j < all.len() && counts(
                    old(self).removed(),
                    old(self).sizes(),
                    #[trigger] all[j],
                ) && all[j].1 != idx implies self.waiting().contains(all[j]) by {
                assert(live.contains(all[j]));
                lemma_remove_contains(live, k as int, all[j]);
            }
        }
        Some(idx)
    }

    /// The triangles to measure anew after a point was removed.
    pub fn triangles(&self, idx: usize) -> (r: (Option<Triangle>, Option<Triangle>))
        requires
            self.wf(),
            0 < idx < self.removed().len() - 1,
        ensures
            r == new_triangles(self.removed(), idx as int),
            r.0 matches Some(t) ==> t.left < t.middle < idx < t.right < self.removed().len(),
            r.1 matches Some(t) ==> t.left < idx < t.middle < t.right < self.removed().len(),
    {
        triangles_after(&self.removed, idx)
    }

    /// Takes note of the size of a point between the ends.
    pub fn measured(&mut self, idx: usize, size: u32)
        requires
            old(self).wf(),
            0 < idx < old(self).removed().len() - 1,
        ensures
            final(self).wf(),
            final(self).removed() == old(self).removed(),
            final(self).sizes() == old(self).sizes().update(idx as int, size),
            final(self).waiting() == old(self).waiting().push((size, idx)),
    {
        self.sizes.set(idx, size);
        self.waiting.push(size, idx);
        proof {
            assert forall|i: int| 0 <= i < self.waiting().len() implies 0 < (
            #[trigger] self.waiting()[i]).1 < self.removed().len() - 1 by {
                if i < old(self).waiting().len() {
                    assert(self.waiting()[i] == old(self).waiting()[i]);
                }
            }
        }
    }

    /// The points that are still there.
    pub fn kept(&self, pts: &Vec<MousePosition>) -> (r: Vec<MousePosition>)
        requires
            self.wf(),
            pts.len() == self.removed().len(),
        ensures
            r@ == points_kept(pts@, self.removed()),
            r@.len() >= 2,
            r@[0] == pts@[0],
            r@.last() == pts@.last(),
    {
        proof {
            law_kept_path_has_both_ends(pts@, self.removed@);
        }
        kept_points(pts, &self.removed)
    }
}

/// What follows the measurement of the point that is next.
#[derive(Clone, Copy, Debug, PartialEq, Eq, Structural)]
pub enum Settled {
    /// The point waits again, under its new size.
    Waits,
    /// The path is thin enough.
    Done,
    /// The point was removed; its neighbours are to be measured.
    Removed { left: usize, right: usize },
}

/// Thins a path out by how far its points lie from the line between their neighbours: the nearest
/// goes first.
pub struct ErrorThinning {
    links: Links,
    waiting: WaitingPlaces,
}

impl ErrorThinning {
    /// Which points were removed.
    pub closed spec fn removed(&self) -> Seq<bool> {
        self.links.removed()
    }

    /// The points that wait.
    pub closed spec fn waiting(&self) -> Seq<(u32, usize)> {
        self.waiting@
    }

    /// The links lead from each point that is there to its neighbours.
    pub closed spec fn linked(&self) -> bool {
        self.links.wf()
    }

    /// The ends of the path are there, and only points between them wait.
    pub open spec fn wf(&self) -> bool {
        let n = self.removed().len();
        &&& self.linked()
        &&& n >= 3
        &&& !self.removed()[0]
        &&& !self.removed()[n - 1]
        &&& forall|i: int|
            0 <= i < self.waiting().len() ==> 0 < (#[trigger] self.waiting()[i]).1 < n - 1
    }

    /// Starts with a path of `n` points, of which none waits yet.
    pub fn new(n: usize) -> (r: Self)
        requires
            n >= 3,
        ensures
            r.wf(),
            r.removed() == Seq::new(n as nat, |i: int| false),
            r.waiting() == Seq::<(u32, usize)>::empty(),
    {
        ErrorThinning { links: Links::new(n), waiting: WaitingPlaces::new() }
    }

    /// The neighbours of a point between the ends.
    pub fn neighbours(&self, idx: usize) -> (r: (usize, usize))
        requires
            self.wf(),
            0 < idx < self.removed().len() - 1,
            !self.removed()[idx as int],
        ensures
            adjacent(self.removed(), r.0 as int, idx as int),
            adjacent(self.removed(), idx as int, r.1 as int),
    {
        self.links.neighbours(idx)
    }

    /// Takes note of the size of a point between the ends.
    pub fn measured(&mut self, idx: usize, size: u32)
        requires
            old(self).wf(),
            0 < idx < old(self).removed().len() - 1,
        ensures
            final(self).wf(),
            final(self).removed() == old(self).removed(),
            final(self).waiting() == old(self).waiting().push((size, idx)),
    {
        self.waiting.push(size, idx);
        proof {
            assert forall|i: int| 0 <= i < self.waiting().len() implies 0 < (
            #[trigger] self.waiting()[i]).1 < self.removed().len() - 1 by {
                if i < old(self).waiting().len() {
                    assert(self.waiting()[i] == old(self).waiting()[i]);
                }
            }
        }
    }

    /// The entries whose points are there, in order.
    pub open spec fn live(&self) -> Seq<(u32, usize)> {
        kept(self.waiting(), present(self.removed()))
    }

    /// Drops the entries of points that were removed.
    fn sweep(&mut self)
        requires
            old(self).wf(),
        ensures
            final(self).wf(),
            final(self).removed() == old(self).removed(),
            final(self).waiting() == old(self).live(),
    {
        let ghost all = self.waiting@;
        let ghost keep = present(self.links.removed());
        let mut live = WaitingPlaces::new();
        let mut i: usize = 0;
        assert(live@ =~= kept(all.take(0), keep));
        while i < self.waiting.items.len()
            invariant
                self.wf(),
                all == self.waiting@,
                keep == present(self.links.removed()),
                i <= all.len(),
                live@ == kept(all.take(i as int), keep),
            decreases all.len() - i,
        {
            proof {
                lemma_take_succ(all, i as int);
                assert(0 < self.waiting()[i as int].1 < self.removed().len() - 1);
            }
            let (size, idx) = self.waiting.items[i];
            if !self.links.is_removed(idx) {
                live.push(size, idx);
            }
            i += 1;
        }
        proof {
            lemma_take_all(all);
            lemma_kept(all, keep);
            assert forall|m: int| 0 <= m < live@.len() implies 0 < (#[trigger] live@[m]).1
                < self.removed().len() - 1 by {
                assert(all.contains(live@[m]));
                let k = choose|k: int| 0 <= k < all.len() && all[k] == live@[m];
                assert(0 < self.waiting()[k].1 < self.removed().len() - 1);
            }
        }
        self.waiting = live;
    }

    /// The point that is next: of those that are there and wait, the one with the smallest size.
    /// It waits no longer, and neither do points that were removed; all others do.
    pub fn next(&mut self) -> (r: Option<(u32, usize)>)
        requires
            old(self).wf(),
        ensures
            final(self).wf(),
            final(self).removed() == old(self).removed(),
            match r {
                Some(item) => {
                    &&& exists|k: int| #[trigger]
                        is_first_smallest(old(self).live(), k) && item == old(self).live()[k]
                            && final(self).waiting() == old(self).live().remove(k)
                    &&& old(self).waiting().contains(item)
                    &&& 0 < item.1 < old(self).removed().len() - 1
                    &&& !old(self).removed()[item.1 as int]
                    &&& forall|j: int|
                        0 <= j < old(self).waiting().len() && !old(self).removed()[(
                        #[trigger] old(self).waiting()[j]).1 as int] ==> item.0
                            <= old(self).waiting()[j].0
                    &&& forall|j: int|
                        0 <= j < old(self).waiting().len() && !old(self).removed()[(
                        #[trigger] old(self).waiting()[j]).1 as int] && old(self).waiting()[j]
                            != item ==> final(self).waiting().contains(old(self).waiting()[j])
                },
                None => {
                    &&& final(self).waiting() == Seq::<(u32, usize)>::empty()
                    &&& forall|j: int|
                        0 <= j < old(self).waiting().len() ==> old(self).removed()[(
                        #[trigger] old(self).waiting()[j]).1 as int]
                },
            },
    {
        let ghost all = self.waiting();
        let ghost live = self.live();
        proof {
            lemma_kept(all, present(self.removed()));
            assert forall|j: int|
                0 <= j < all.len() && !self.removed()[(#[trigger] all[j]).1 as int] implies live
                .contains(all[j]) by {
                assert(all.contains(all[j]));
                assert(present(self.removed())(all[j]));
            }
        }
        self.sweep();
        let item = match self.waiting.pop_smallest() {
            Some(item) => item,
            None => {
                assert(self.waiting() =~= Seq::empty());
                return None;
            },
        };
        proof {
            let k = choose|k: int| #[trigger]
                is_first_smallest(live, k) && item == live[k] && self.waiting() == live.remove(k);
            assert(is_first_smallest(old(self).live(), k));
            assert(present(old(self).removed())(live[k]));
            assert(all.contains(live[k]));
            let place = choose|place: int| 0 <= place < all.len() && all[place] == live[k];
            assert(0 < old(self).waiting()[place].1 < old(self).removed().len() - 1);
            assert forall|m: int| 0 <= m < self.waiting().len() implies 0 < (
            #[trigger] self.waiting()[m]).1 < self.removed().len() - 1 by {
                let n = if m < k {
                    m
                } else {
                    m + 1
                };
                assert(self.waiting()[m] == live[n]);
                assert(all.contains(live[n]));
                let from = choose|from: int| 0 <= from < all.len() && all[from] == live[n];
                assert(0 < old(self).waiting()[from].1 < old(self).removed().len() - 1);
            }
            assert forall|j: int|
                0 <= j < all.len() && !old(self).removed()[(#[trigger] all[j]).1 as int] && all[j]
                    != item implies self.waiting().contains(all[j]) by {
                assert(live.contains(all[j]));
                lemma_remove_contains(live, k, all[j]);
            }
        }
        Some(item)
    }

    /// What follows the measurement `now` of the point that is next: it waits again where it has
    /// changed, ends the thinning where it is beyond the limit, and is removed otherwise.
    pub fn settle(&mut self, idx: usize, now: u32, changed: bool, limit: u32) -> (r: Settled)
        requires
            old(self).wf(),
            0 < idx < old(self).removed().len() - 1,
            !old(self).removed()[idx as int],
        ensures
            final(self).wf(),
            match r {
                Settled::Waits => {
                    &&& changed
                    &&& final(self).removed() == old(self).removed()
                    &&& final(self).waiting() == old(self).waiting().push((now, idx))
                },
                Settled::Done => {
                    &&& !changed
                    &&& now > limit
                    &&& final(self).removed() == old(self).removed()
                    &&& final(self).waiting() == old(self).waiting()
                },
                Settled::Removed { left, right } => {
                    &&& !changed
                    &&& now <= limit
                    &&& adjacent(old(self).removed(), left as int, idx as int)
                    &&& adjacent(old(self).removed(), idx as int, right as int)
                    &&& final(self).removed() == old(self).removed().update(idx as int, true)
                    &&& adjacent(final(self).removed(), left as int, right as int)
                    &&& final(self).waiting() == old(self).waiting()
                },
            },
    {
        if changed {
            self.waiting.push(now, idx);
            proof {
                assert forall|i: int| 0 <= i < self.waiting().len() implies 0 < (
                #[trigger] self.waiting()[i]).1 < self.removed().len() - 1 by {
                    if i < old(self).waiting().len() {
                        assert(self.waiting()[i] == old(self).waiting()[i]);
                    }
                }
            }
            return Settled::Waits;
        }
        if now > limit {
            return Settled::Done;
        }
        let (left, right) = self.links.neighbours(idx);
        let ghost before = self.links.removed();
        self.links.remove(idx);
        proof {
            let after = self.links.removed();
            assert forall|m: int| left < m < right implies #[trigger] after[m] by {
                if m != idx {
                    assert(before[m]);
                }
            }
            assert forall|i: int| 0 <= i < self.waiting().len() implies 0 < (
            #[trigger] self.waiting()[i]).1 < self.removed().len() - 1 by {
                assert(self.waiting()[i] == old(self).waiting()[i]);
            }
        }
        Settled::Removed { left, right }
    }

    /// The points that are still there.
    pub fn kept(&self, pts: &Vec<MousePosition>) -> (r: Vec<MousePosition>)
        requires
            self.wf(),
            pts.len() == self.removed().len(),
        ensures
            r@ == points_kept(pts@, self.removed()),
            r@.len() >= 2,
            r@[0] == pts@[0],
            r@.last() == pts@.last(),
    {
        proof {
            law_kept_path_has_both_ends(pts@, self.removed());
        }
        self.links.kept(pts)
    }
}

/// There is one first of the largest numbers, and one first place of the smallest size, so what is
/// found is told by the numbers alone.
pub proof fn law_extremes_are_unique(s: Seq<u32>, waiting: Seq<(u32, usize)>, i: int, j: int)
    ensures
        is_first_largest(s, i) ==> 0 <= i < s.len() && (forall|k: int|
            0 <= k < s.len() ==> #[trigger] s[k] <= s[i]) && (forall|k: int|
            0 <= k < s.len() && #[trigger] s[k] == s[i] ==> i <= k),
        is_first_largest(s, i) && is_first_largest(s, j) ==> i == j,
        is_first_smallest(waiting, i) ==> 0 <= i < waiting.len() && (forall|k: int|
            0 <= k < waiting.len() ==> waiting[i].0 <= (#[trigger] waiting[k]).0) && (forall|k: int|
            0 <= k < waiting.len() && (#[trigger] waiting[k]).0 == waiting[i].0 ==> i <= k),
        is_first_smallest(waiting, i) && is_first_smallest(waiting, j) ==> i == j,
{
    if is_first_largest(s, i) && is_first_largest(s, j) && i != j {
        assert(s[i] <= s[j] && s[j] <= s[i]);
    }
    if is_first_smallest(waiting, i) && is_first_smallest(waiting, j) && i != j {
        assert(waiting[i].0 <= waiting[j].0 && waiting[j].0 <= waiting[i].0);
    }
}

} // verus!
