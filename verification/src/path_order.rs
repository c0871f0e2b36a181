//! The order of paths. Paths are compared name by name, not letter by letter: `logs/a` comes
//! before `logs-old`, though `-` comes before `/`. Separators that are doubled or stand at the
//! end do not count, and neither does `.` but at the start.

use crate::text::chars_of;
use crate::views::{lemma_take_all, lemma_take_succ, lemma_views_push, views};
use vstd::prelude::*;

verus! {

/// One step of a path. The rank tells the root, `.` at the start, `..` and a name apart, in this
/// order; only a name has letters.
#[verifier::ext_equal]
pub struct PartView {
    pub rank: int,
    pub name: Seq<char>,
}

pub struct PathPart {
    pub rank: u8,
    pub name: Vec<char>,
}

impl View for PathPart {
    type V = PartView;

    open spec fn view(&self) -> PartView {
        PartView { rank: self.rank as int, name: self.name@ }
    }
}

/// The texts between the separators.
pub open spec fn pieces(path: Seq<char>) -> Seq<Seq<char>>
    decreases path.len(),
{
    if path.len() == 0 {
        seq![Seq::empty()]
    } else {
        let before = pieces(path.drop_last());
        if path.last() == '/' {
            before.push(Seq::empty())
        } else {
            before.drop_last().push(before.last().push(path.last()))
        }
    }
}

/// The steps that the pieces stand for. An empty piece and `.` stand for none.
pub open spec fn steps(pieces: Seq<Seq<char>>) -> Seq<PartView>
    decreases pieces.len(),
{
    if pieces.len() == 0 {
        Seq::empty()
    } else {
        let before = steps(pieces.drop_last());
        let piece = pieces.last();
        if piece.len() == 0 || piece == seq!['.'] {
            before
        } else if piece == seq!['.', '.'] {
            before.push(PartView { rank: 2, name: Seq::empty() })
        } else {
            before.push(PartView { rank: 3, name: piece })
        }
    }
}

/// The steps of a path: the root or `.` at its start, then its names.
pub open spec fn path_parts(path: Seq<char>) -> Seq<PartView> {
    let start = if path.len() > 0 && path[0] == '/' {
        seq![PartView { rank: 0, name: Seq::empty() }]
    } else if pieces(path)[0] == seq!['.'] {
        seq![PartView { rank: 1, name: Seq::empty() }]
    } else {
        Seq::empty()
    };
    start + steps(pieces(path))
}

/// The first name comes before the second: at the first place where they differ it has the
/// smaller character, or it ends there.
pub open spec fn name_before(a: Seq<char>, b: Seq<char>) -> bool
    decreases a.len(),
{
    if a.len() == 0 {
        b.len() > 0
    } else if b.len() == 0 {
        false
    } else if a[0] == b[0] {
        name_before(a.drop_first(), b.drop_first())
    } else {
        a[0] < b[0]
    }
}

/// The first step comes before the second.
pub open spec fn part_before(a: PartView, b: PartView) -> bool {
    a.rank < b.rank || a.rank == b.rank && name_before(a.name, b.name)
}

/// The first steps come before the second: at the first place where they differ they have the
/// smaller step, or they end there.
pub open spec fn parts_before(a: Seq<PartView>, b: Seq<PartView>) -> bool
    decreases a.len(),
{
    if a.len() == 0 {
        b.len() > 0
    } else if b.len() == 0 {
        false
    } else if a[0] == b[0] {
        parts_before(a.drop_first(), b.drop_first())
    } else {
        part_before(a[0], b[0])
    }
}

/// The first path comes before the second.
pub open spec fn path_before(a: Seq<char>, b: Seq<char>) -> bool {
    parts_before(path_parts(a), path_parts(b))
}

proof fn lemma_pieces_some(path: Seq<char>)
    ensures
        pieces(path).len() > 0,
    decreases path.len(),
{
    if path.len() > 0 {
        lemma_pieces_some(path.drop_last());
    }
}

proof fn lemma_names_total(a: Seq<char>, b: Seq<char>)
    ensures
        a == b || name_before(a, b) || name_before(b, a),
        !(name_before(a, b) && name_before(b, a)),
    decreases a.len(),
{
    if a.len() > 0 && b.len() > 0 {
        if a[0] == b[0] {
            let x = a.drop_first();
            let y = b.drop_first();
            lemma_names_total(x, y);
            if x == y {
                assert(a =~= seq![a[0]] + x);
                assert(b =~= seq![b[0]] + y);
            }
        }
    } else if a.len() == b.len() {
        assert(a =~= b);
    }
}

proof fn lemma_names_between(a: Seq<char>, b: Seq<char>, c: Seq<char>)
    requires
        name_before(a, c),
    ensures
        name_before(a, b) || name_before(b, c),
    decreases a.len(),
{
    if a.len() > 0 && b.len() > 0 && a[0] == c[0] && a[0] == b[0] {
        lemma_names_between(a.drop_first(), b.drop_first(), c.drop_first());
    }
}

proof fn lemma_part_total(a: PartView, b: PartView)
    ensures
        a == b || part_before(a, b) || part_before(b, a),
        !(part_before(a, b) && part_before(b, a)),
{
    lemma_names_total(a.name, b.name);
}

proof fn lemma_parts_total(a: Seq<PartView>, b: Seq<PartView>)
    ensures
        a == b || parts_before(a, b) || parts_before(b, a),
        !(parts_before(a, b) && parts_before(b, a)),
    decreases a.len(),
{
    if a.len() > 0 && b.len() > 0 {
        lemma_part_total(a[0], b[0]);
        if a[0] == b[0] {
            let x = a.drop_first();
            let y = b.drop_first();
            lemma_parts_total(x, y);
            if x == y {
                assert(a =~= seq![a[0]] + x);
                assert(b =~= seq![b[0]] + y);
            }
        }
    } else if a.len() == b.len() {
        assert(a =~= b);
    }
}

proof fn lemma_parts_between(a: Seq<PartView>, b: Seq<PartView>, c: Seq<PartView>)
    requires
        parts_before(a, c),
    ensures
        parts_before(a, b) || parts_before(b, c),
    decreases a.len(),
{
    if a.len() > 0 && b.len() > 0 {
        lemma_part_total(a[0], b[0]);
        lemma_part_total(b[0], c[0]);
        if a[0] == c[0] {
            if a[0] == b[0] {
                lemma_parts_between(a.drop_first(), b.drop_first(), c.drop_first());
            }
        } else if a[0].rank == b[0].rank && b[0].rank == c[0].rank {
            lemma_names_between(a[0].name, b[0].name, c[0].name);
        }
    }
}

/// Of two paths with different steps exactly one comes before the other, and no path comes
/// before itself.
pub proof fn law_paths_are_ordered(a: Seq<char>, b: Seq<char>)
    ensures
        path_parts(a) == path_parts(b) || path_before(a, b) || path_before(b, a),
        !(path_before(a, b) && path_before(b, a)),
{
    lemma_parts_total(path_parts(a), path_parts(b));
}

/// Where one path comes before another, any third comes after the first or before the second.
pub proof fn law_paths_lie_between(a: Seq<char>, b: Seq<char>, c: Seq<char>)
    requires
        path_before(a, c),
    ensures
        path_before(a, b) || path_before(b, c),
{
    lemma_parts_between(path_parts(a), path_parts(b), path_parts(c));
}

fn pieces_of(path: &Vec<char>) -> (r: Vec<Vec<char>>)
    ensures
        views(r@) == pieces(path@),
{
    broadcast use lemma_views_push;

    let mut done: Vec<Vec<char>> = Vec::new();
    let mut piece: Vec<char> = Vec::new();
    let mut i: usize = 0;
    assert(views(done@).push(piece@) =~= pieces(path@.take(0)));
    while i < path.len()
        invariant
            i <= path.len(),
            views(done@).push(piece@) == pieces(path@.take(i as int)),
        decreases path.len() - i,
    {
        proof {
            lemma_take_succ(path@, i as int);
        }
        let ghost before = views(done@).push(piece@);
        assert(before.drop_last() =~= views(done@));
        let c = path[i];
        if c == '/' {
            done.push(piece);
            piece = Vec::new();
            assert(piece@ =~= Seq::<char>::empty());
        } else {
            piece.push(c);
        }
        i += 1;
    }
    proof {
        lemma_take_all(path@);
    }
    done.push(piece);
    done
}

fn is_dot(piece: &Vec<char>) -> (r: bool)
    ensures
        r == (piece@ == seq!['.']),
{
    let r = piece.len() == 1 && piece[0] == '.';
    assert(r ==> piece@ =~= seq!['.']);
    r
}

fn is_dots(piece: &Vec<char>) -> (r: bool)
    ensures
        r == (piece@ == seq!['.', '.']),
{
    let r = piece.len() == 2 && piece[0] == '.' && piece[1] == '.';
    assert(r ==> piece@ =~= seq!['.', '.']);
    r
}

/// The steps of a path.
pub fn parts_of_path(path: &str) -> (r: Vec<PathPart>)
    ensures
        views(r@) == path_parts(path@),
{
    broadcast use lemma_views_push;

    let chars = chars_of(path);
    let found = pieces_of(&chars);
    let ghost all = views(found@);
    proof {
        lemma_pieces_some(path@);
        assert(all[0] == found@[0]@);
    }
    let mut parts: Vec<PathPart> = Vec::new();
    assert(views(parts@) =~= Seq::empty());
    if chars.len() > 0 && chars[0] == '/' {
        parts.push(PathPart { rank: 0, name: Vec::new() });
        assert(views(parts@) =~= seq![PartView { rank: 0, name: Seq::empty() }]);
    } else if is_dot(&found[0]) {
        parts.push(PathPart { rank: 1, name: Vec::new() });
        assert(views(parts@) =~= seq![PartView { rank: 1, name: Seq::empty() }]);
    }
    let ghost start = views(parts@);
    let mut i: usize = 0;
    assert(views(parts@) =~= start + steps(all.take(0)));
    while i < found.len()
        invariant
            all == views(found@),
            i <= found.len(),
            views(parts@) == start + steps(all.take(i as int)),
        decreases found.len() - i,
    {
        proof {
            lemma_take_succ(all, i as int);
        }
        assert(all[i as int] == found@[i as int]@);
        let ghost before = steps(all.take(i as int));
        let ghost was = views(parts@);
        let piece = &found[i];
        if piece.len() == 0 || is_dot(piece) {
        } else if is_dots(piece) {
            parts.push(PathPart { rank: 2, name: Vec::new() });
            assert(views(parts@) =~= was.push(PartView { rank: 2, name: Seq::empty() }));
            assert(views(parts@) =~= start + before.push(was.push(parts@.last()@).last()));
        } else {
            let mut name: Vec<char> = Vec::new();
            let mut j: usize = 0;
            while j < piece.len()
                invariant
                    j <= piece.len(),
                    name@ == piece@.take(j as int),
                decreases piece.len() - j,
            {
                proof {
                    lemma_take_succ(piece@, j as int);
                }
                name.push(piece[j]);
                j += 1;
            }
            proof {
                lemma_take_all(piece@);
            }
            parts.push(PathPart { rank: 3, name });
            assert(views(parts@) =~= was.push(PartView { rank: 3, name: piece@ }));
            assert(views(parts@) =~= start + before.push(PartView { rank: 3, name: piece@ }));
        }
        i += 1;
    }
    proof {
        lemma_take_all(all);
    }
    parts
}

fn is_name_before(a: &Vec<char>, b: &Vec<char>) -> (r: bool)
    ensures
        r == name_before(a@, b@),
{
    let mut i: usize = 0;
    assert(a@.skip(0) =~= a@);
    assert(b@.skip(0) =~= b@);
    while i < a.len() && i < b.len()
        invariant
            i <= a.len(),
            i <= b.len(),
            name_before(a@, b@) == name_before(a@.skip(i as int), b@.skip(i as int)),
        decreases a.len() - i,
    {
        let ghost x = a@.skip(i as int);
        let ghost y = b@.skip(i as int);
        assert(x[0] == a@[i as int] && y[0] == b@[i as int]);
        assert(x.drop_first() =~= a@.skip(i + 1));
        assert(y.drop_first() =~= b@.skip(i + 1));
        if a[i] != b[i] {
            return a[i] < b[i];
        }
        i += 1;
    }
    i < b.len()
}

fn is_same_name(a: &Vec<char>, b: &Vec<char>) -> (r: bool)
    ensures
        r == (a@ == b@),
{
    if a.len() != b.len() {
        return false;
    }
    let mut i: usize = 0;
    while i < a.len()
        invariant
            a.len() == b.len(),
            i <= a.len(),
            forall|j: int| 0 <= j < i ==> a@[j] == b@[j],
        decreases a.len() - i,
    {
        if a[i] != b[i] {
            return false;
        }
        i += 1;
    }
    assert(a@ =~= b@);
    true
}

/// Whether the first path comes before the second.
pub fn comes_before(a: &str, b: &str) -> (r: bool)
    ensures
        r == path_before(a@, b@),
{
    let left = parts_of_path(a);
    let right = parts_of_path(b);
    let ghost ls = views(left@);
    let ghost rs = views(right@);
    let mut i: usize = 0;
    assert(ls.skip(0) =~= ls);
    assert(rs.skip(0) =~= rs);
    while i < left.len() && i < right.len()
        invariant
            ls == views(left@),
            rs == views(right@),
            ls == path_parts(a@),
            rs == path_parts(b@),
            i <= left.len(),
            i <= right.len(),
            parts_before(ls, rs) == parts_before(ls.skip(i as int), rs.skip(i as int)),
        decreases left.len() - i,
    {
        let ghost x = ls.skip(i as int);
        let ghost y = rs.skip(i as int);
        assert(x[0] == left@[i as int]@ && y[0] == right@[i as int]@);
        assert(x.drop_first() =~= ls.skip(i + 1));
        assert(y.drop_first() =~= rs.skip(i + 1));
        if left[i].rank != right[i].rank {
            return left[i].rank < right[i].rank;
        }
        if !is_same_name(&left[i].name, &right[i].name) {
            return is_name_before(&left[i].name, &right[i].name);
        }
        i += 1;
    }
    i < right.len()
}

/// A directory comes before what lies in it: a path whose steps go on where those of another end
/// comes behind it.
pub proof fn law_directory_comes_first(a: Seq<char>, b: Seq<char>)
    requires
        path_parts(a).len() < path_parts(b).len(),
        path_parts(a).is_prefix_of(path_parts(b)),
    ensures
        path_before(a, b),
        !path_before(b, a),
{
    lemma_prefix_first(path_parts(a), path_parts(b));
    law_paths_are_ordered(a, b);
}

proof fn lemma_prefix_first(a: Seq<PartView>, b: Seq<PartView>)
    requires
        a.len() < b.len(),
        a.is_prefix_of(b),
    ensures
        parts_before(a, b),
    decreases a.len(),
{
    if a.len() > 0 {
        assert(a.drop_first().is_prefix_of(b.drop_first()));
        lemma_prefix_first(a.drop_first(), b.drop_first());
    }
}

/// Where two paths part, the names at that step decide: at the first character in which they differ
/// the smaller one comes first.
pub proof fn law_first_difference_decides(a: Seq<char>, b: Seq<char>, n: int, m: int)
    requires
        0 <= n < path_parts(a).len(),
        n < path_parts(b).len(),
        path_parts(a).take(n) == path_parts(b).take(n),
        path_parts(a)[n].rank == path_parts(b)[n].rank,
        0 <= m < path_parts(a)[n].name.len(),
        m < path_parts(b)[n].name.len(),
        path_parts(a)[n].name.take(m) == path_parts(b)[n].name.take(m),
        path_parts(a)[n].name[m] < path_parts(b)[n].name[m],
    ensures
        path_before(a, b),
        !path_before(b, a),
{
    let x = path_parts(a)[n].name;
    let y = path_parts(b)[n].name;
    lemma_name_difference(x, y, m);
    assert(part_before(path_parts(a)[n], path_parts(b)[n]));
    lemma_part_difference(path_parts(a), path_parts(b), n);
    law_paths_are_ordered(a, b);
}

proof fn lemma_name_difference(a: Seq<char>, b: Seq<char>, m: int)
    requires
        0 <= m < a.len(),
        m < b.len(),
        a.take(m) == b.take(m),
        a[m] < b[m],
    ensures
        name_before(a, b),
    decreases m,
{
    if m > 0 {
        assert(a.take(m)[0] == b.take(m)[0]);
        assert(a[0] == a.take(m)[0] && b[0] == b.take(m)[0]);
        assert(a.drop_first().take(m - 1) =~= a.take(m).drop_first());
        assert(b.drop_first().take(m - 1) =~= b.take(m).drop_first());
        assert(a.drop_first()[m - 1] == a[m] && b.drop_first()[m - 1] == b[m]);
        lemma_name_difference(a.drop_first(), b.drop_first(), m - 1);
    }
}

proof fn lemma_part_difference(a: Seq<PartView>, b: Seq<PartView>, n: int)
    requires
        0 <= n < a.len(),
        n < b.len(),
        a.take(n) == b.take(n),
        a[n] != b[n],
        part_before(a[n], b[n]),
    ensures
        parts_before(a, b),
    decreases n,
{
    if n > 0 {
        assert(a.take(n)[0] == b.take(n)[0]);
        assert(a.drop_first().take(n - 1) =~= a.take(n).drop_first());
        assert(b.drop_first().take(n - 1) =~= b.take(n).drop_first());
        lemma_part_difference(a.drop_first(), b.drop_first(), n - 1);
    }
}

} // verus!
