//! Choosing, listing, showing and searching the log files.

use crate::grouping::distinct;
use crate::numbers::{
    decimal, digit, number_text, parse_signed, push_number, push_signed, signed_decimal,
    signed_number_in,
};
use crate::text::{chars_of, push_char, push_text, trim_bounds, trimmed, trimmed_end, trimmed_start};
use crate::views::{lemma_take_all, lemma_take_succ, lemma_views_push, views};
use vstd::prelude::*;

verus! {

/// What to do with the log files.
#[derive(Debug)]
pub enum LogCommand {
    /// List them.
    List(ListArgs),
    /// Show the contents of one or more of them.
    Show(ShowArgs),
    /// Search the recent ones by a regular expression.
    Filter(FilterArgs),
}

#[derive(Clone, Copy, Debug)]
pub struct ListArgs {
    /// Show the latest first, with negative numbers.
    pub reverse: bool,
}

#[derive(Debug)]
pub struct ShowArgs {
    /// Numbers and ranges with commas between them.
    pub selection: String,
    /// Print directly instead of through a pager.
    pub no_pager: bool,
}

#[derive(Debug)]
pub struct FilterArgs {
    /// The regular expression that lines have to match.
    pub pattern: String,
    /// How many hours back to search.
    pub hours: u64,
}

/// Why a selection cannot be used.
#[derive(Debug)]
pub enum SelectionError {
    NoLogFiles,
    InvalidIndex(String),
    TooLarge { index: usize, last: usize },
    TooSmall { value: isize, available: usize },
}

#[verifier::ext_equal]
pub enum SelectionErrorView {
    NoLogFiles,
    InvalidIndex(Seq<char>),
    TooLarge { index: int, last: int },
    TooSmall { value: int, available: int },
}

impl View for SelectionError {
    type V = SelectionErrorView;

    open spec fn view(&self) -> SelectionErrorView {
        match self {
            SelectionError::NoLogFiles => SelectionErrorView::NoLogFiles,
            SelectionError::InvalidIndex(text) => SelectionErrorView::InvalidIndex(text@),
            SelectionError::TooLarge { index, last } => SelectionErrorView::TooLarge {
                index: *index as int,
                last: *last as int,
            },
            SelectionError::TooSmall { value, available } => SelectionErrorView::TooSmall {
                value: *value as int,
                available: *available as int,
            },
        }
    }
}

/// The error in words.
pub open spec fn selection_error_text(e: SelectionErrorView) -> Seq<char> {
    match e {
        SelectionErrorView::NoLogFiles => "no log files available"@,
        SelectionErrorView::InvalidIndex(text) => "invalid index '"@ + text + "'"@,
        SelectionErrorView::TooLarge { index, last } => "index "@ + decimal(index as nat)
            + " out of range (0.."@ + decimal(last as nat) + ")"@,
        SelectionErrorView::TooSmall { value, available } => "index "@ + signed_decimal(value)
            + " out of range (available "@ + decimal(available as nat) + ")"@,
    }
}

impl SelectionError {
    /// The error in words.
    pub fn message(&self) -> (r: String)
        ensures
            r@ == selection_error_text(self@),
    {
        match self {
            SelectionError::NoLogFiles => "no log files available".to_string(),
            SelectionError::InvalidIndex(text) => {
                let mut t = "invalid index '".to_string();
                push_text(&mut t, text.as_str());
                push_text(&mut t, "'");
                t
            },
            SelectionError::TooLarge { index, last } => {
                let mut t = "index ".to_string();
                push_number(&mut t, *index as u64);
                push_text(&mut t, " out of range (0..");
                push_number(&mut t, *last as u64);
                push_text(&mut t, ")");
                t
            },
            SelectionError::TooSmall { value, available } => {
                let mut t = "index ".to_string();
                push_signed(&mut t, *value as i64);
                push_text(&mut t, " out of range (available ");
                push_number(&mut t, *available as u64);
                push_text(&mut t, ")");
                t
            },
        }
    }
}

proof fn lemma_trimmed_start_len(s: Seq<char>)
    ensures
        trimmed_start(s).len() <= s.len(),
    decreases s.len(),
{
    if s.len() > 0 {
        lemma_trimmed_start_len(s.drop_first());
    }
}

proof fn lemma_trimmed_end_len(s: Seq<char>)
    ensures
        trimmed_end(s).len() <= s.len(),
    decreases s.len(),
{
    if s.len() > 0 {
        lemma_trimmed_end_len(s.drop_last());
    }
}

/// Trimming does not lengthen a text.
pub proof fn lemma_trimmed_len(s: Seq<char>)
    ensures
        trimmed(s).len() <= s.len(),
{
    lemma_trimmed_start_len(s);
    lemma_trimmed_end_len(trimmed_start(s));
}

/// The text stands in brackets.
pub open spec fn in_brackets(t: Seq<char>) -> bool {
    t.len() > 2 && t[0] == '(' && t.last() == ')'
}

/// The text without the brackets and white space around it.
pub open spec fn unbracketed(s: Seq<char>) -> Seq<char>
    decreases s.len(),
{
    let t = trimmed(s);
    if in_brackets(t) {
        proof {
            lemma_trimmed_len(s);
        }
        unbracketed(t.subrange(1, t.len() - 1))
    } else {
        t
    }
}

/// The text without the brackets and white space around it.
pub fn trim_wrapping_parens<'a>(value: &'a str) -> (r: &'a str)
    ensures
        r@ == unbracketed(value@),
    decreases value@.len(),
{
    let v = chars_of(value);
    let (from, to) = trim_bounds(&v);
    let n: usize = to - from;
    let ghost t = trimmed(value@);
    proof {
        lemma_trimmed_len(value@);
        assert(v@.subrange(from as int, to as int) == t);
        assert(n == t.len());
        assert(n > 0 ==> t[0] == v@[from as int] && t.last() == v@[to - 1]);
    }
    if n > 2 && v[from] == '(' && v[to - 1] == ')' {
        let inner = value.substring_char(from + 1, to - 1);
        assert(v@.subrange(from + 1, to - 1) =~= t.subrange(1, t.len() - 1));
        trim_wrapping_parens(inner)
    } else {
        value.substring_char(from, to)
    }
}

/// How many brackets are open at the end of the text.
pub open spec fn open_brackets(s: Seq<char>) -> int
    decreases s.len(),
{
    if s.len() == 0 {
        0
    } else if s.last() == '(' {
        open_brackets(s.drop_last()) + 1
    } else if s.last() == ')' {
        open_brackets(s.drop_last()) - 1
    } else {
        open_brackets(s.drop_last())
    }
}

/// The character at `i` is a dash between the two ends of a range: outside brackets, and not the
/// sign of the first end.
pub open spec fn is_range_dash(t: Seq<char>, i: int) -> bool {
    0 < i < t.len() && t[i] == '-' && open_brackets(t.take(i)) == 0
}

/// The two ends of a range.
pub open spec fn is_range(token: Seq<char>, left: Seq<char>, right: Seq<char>) -> bool {
    let t = trimmed(token);
    exists|i: int| #[trigger]
        is_range_dash(t, i) && (forall|j: int| 0 <= j < i ==> !is_range_dash(t, j)) && left
            == trimmed(t.take(i)) && right == trimmed(t.skip(i + 1))
}

/// The token is a range.
pub open spec fn has_range(token: Seq<char>) -> bool {
    exists|i: int| #[trigger] is_range_dash(trimmed(token), i)
}

/// The part of `s` from `from` to `to`, without the white space around it.
fn trimmed_part<'a>(s: &'a str, v: &Vec<char>, from: usize, to: usize) -> (r: &'a str)
    requires
        v@ == s@,
        from <= to <= v.len(),
    ensures
        r@ == trimmed(s@.subrange(from as int, to as int)),
{
    let part = s.substring_char(from, to);
    let w = chars_of(part);
    let (a, b) = trim_bounds(&w);
    part.substring_char(a, b)
}

/// The two ends of a range, where the token is one.
pub fn split_range<'a>(token: &'a str) -> (r: Option<(&'a str, &'a str)>)
    ensures
        match r {
            Some((left, right)) => is_range(token@, left@, right@),
            None => !has_range(token@),
        },
{
    let whole = chars_of(token);
    let (from, to) = trim_bounds(&whole);
    let text = token.substring_char(from, to);
    let v = chars_of(text);
    let ghost t = trimmed(token@);
    let mut depth: i128 = 0;
    let mut i: usize = 0;
    while i < v.len()
        invariant
            v@ == t,
            text@ == t,
            t == trimmed(token@),
            i <= v.len(),
            depth == open_brackets(t.take(i as int)),
            -(i as int) <= depth <= i,
            forall|j: int| 0 <= j < i ==> !is_range_dash(t, j),
        decreases v.len() - i,
    {
        proof {
            lemma_take_succ(t, i as int);
        }
        let c = v[i];
        if c == '(' {
            depth = depth + 1;
        } else if c == ')' {
            depth = depth - 1;
        } else if c == '-' && depth == 0 && i != 0 {
            let left = trimmed_part(text, &v, 0, i);
            let right = trimmed_part(text, &v, i + 1, v.len());
            proof {
                assert(t.subrange(0, i as int) =~= t.take(i as int));
                assert(t.subrange(i + 1, t.len() as int) =~= t.skip(i + 1));
                assert(is_range_dash(t, i as int));
            }
            return Some((left, right));
        }
        i += 1;
    }
    None
}

/// The place that a number stands for among `len` files: from the start, or from the end where
/// it is negative.
pub open spec fn normalized(value: int, len: int) -> Result<usize, SelectionErrorView> {
    if value >= len {
        Err(SelectionErrorView::TooLarge { index: value, last: len - 1 })
    } else if value >= 0 {
        Ok(value as usize)
    } else if len + value < 0 {
        Err(SelectionErrorView::TooSmall { value, available: len })
    } else {
        Ok((len + value) as usize)
    }
}

/// The place that a number stands for among `len` files.
pub fn normalize_index(value: isize, len: usize) -> (r: Result<usize, SelectionError>)
    requires
        len <= isize::MAX,
        value >= 0 ==> len > 0,
    ensures
        match r {
            Ok(i) => normalized(value as int, len as int) == Ok::<usize, SelectionErrorView>(i)
                && i < len,
            Err(e) => normalized(value as int, len as int) == Err::<usize, SelectionErrorView>(e@),
        },
{
    if value >= 0 {
        let idx: usize = value as usize;
        if idx >= len {
            Err(SelectionError::TooLarge { index: idx, last: len - 1 })
        } else {
            Ok(idx)
        }
    } else {
        let idx: isize = len as isize + value;
        if idx < 0 {
            Err(SelectionError::TooSmall { value, available: len })
        } else {
            Ok(idx as usize)
        }
    }
}

/// The place that a token stands for among `len` files.
pub open spec fn resolved(token: Seq<char>, len: int) -> Result<usize, SelectionErrorView> {
    let t = unbracketed(trimmed(token));
    if len == 0 {
        Err(SelectionErrorView::NoLogFiles)
    } else {
        match signed_number_in(t) {
            Some(n) => if isize::MIN <= n <= isize::MAX {
                normalized(n, len)
            } else {
                Err(SelectionErrorView::InvalidIndex(t))
            },
            None => Err(SelectionErrorView::InvalidIndex(t)),
        }
    }
}

/// The place that a token stands for among `len` files.
pub fn resolve_index(token: &str, len: usize) -> (r: Result<usize, SelectionError>)
    requires
        len <= isize::MAX,
    ensures
        match r {
            Ok(i) => resolved(token@, len as int) == Ok::<usize, SelectionErrorView>(i) && i < len,
            Err(e) => resolved(token@, len as int) == Err::<usize, SelectionErrorView>(e@),
        },
{
    if len == 0 {
        return Err(SelectionError::NoLogFiles);
    }
    let v = chars_of(token);
    let (from, to) = trim_bounds(&v);
    let text = trim_wrapping_parens(token.substring_char(from, to));
    match parse_signed(text) {
        Some(n) => {
            if n < isize::MIN as i64 || n > isize::MAX as i64 {
                Err(SelectionError::InvalidIndex(text.to_string()))
            } else {
                normalize_index(n as isize, len)
            }
        },
        None => Err(SelectionError::InvalidIndex(text.to_string())),
    }
}

/// The places from `a` to `b`, counting up or down.
pub open spec fn span(a: usize, b: usize) -> Seq<usize> {
    if a <= b {
        Seq::new((b - a + 1) as nat, |i: int| (a + i) as usize)
    } else {
        Seq::new((a - b + 1) as nat, |i: int| (a - i) as usize)
    }
}

/// The two ends of a range; arbitrary where the token is none.
pub open spec fn range_ends(token: Seq<char>) -> (Seq<char>, Seq<char>) {
    choose|ends: (Seq<char>, Seq<char>)| #[trigger] is_range(token, ends.0, ends.1)
}

/// The places that a token stands for.
pub open spec fn token_places(token: Seq<char>, len: int) -> Result<
    Seq<usize>,
    SelectionErrorView,
> {
    if has_range(token) {
        let (left, right) = range_ends(token);
        match resolved(left, len) {
            Err(e) => Err(e),
            Ok(a) => match resolved(right, len) {
                Err(e) => Err(e),
                Ok(b) => Ok(span(a, b)),
            },
        }
    } else {
        match resolved(token, len) {
            Err(e) => Err(e),
            Ok(a) => Ok(seq![a]),
        }
    }
}

/// The ends of a range are determined by the token.
proof fn lemma_range_ends(token: Seq<char>, left: Seq<char>, right: Seq<char>)
    requires
        is_range(token, left, right),
    ensures
        has_range(token),
        range_ends(token) == (left, right),
{
    let t = trimmed(token);
    let ends = range_ends(token);
    assert(is_range(token, (left, right).0, (left, right).1));
    assert(is_range(token, ends.0, ends.1));
    let i = choose|i: int| #[trigger]
        is_range_dash(t, i) && (forall|j: int| 0 <= j < i ==> !is_range_dash(t, j)) && left
            == trimmed(t.take(i)) && right == trimmed(t.skip(i + 1));
    let k = choose|i: int| #[trigger]
        is_range_dash(t, i) && (forall|j: int| 0 <= j < i ==> !is_range_dash(t, j)) && ends.0
            == trimmed(t.take(i)) && ends.1 == trimmed(t.skip(i + 1));
    assert(i == k);
}

/// The texts between the commas.
pub open spec fn fields(s: Seq<char>) -> Seq<Seq<char>>
    decreases s.len(),
{
    if s.len() == 0 {
        seq![Seq::empty()]
    } else {
        let before = fields(s.drop_last());
        if s.last() == ',' {
            before.push(Seq::empty())
        } else {
            before.update(before.len() - 1, before.last().push(s.last()))
        }
    }
}

proof fn lemma_fields_nonempty(s: Seq<char>)
    ensures
        fields(s).len() > 0,
    decreases s.len(),
{
    if s.len() > 0 {
        lemma_fields_nonempty(s.drop_last());
    }
}

fn split_fields(s: &str) -> (r: Vec<String>)
    ensures
        views(r@) == fields(s@),
{
    broadcast use lemma_views_push;

    let v = chars_of(s);
    let ghost all = v@;
    let mut out: Vec<String> = Vec::new();
    let mut current = String::new();
    let mut i: usize = 0;
    assert(views(out@).push(current@) =~= fields(all.take(0)));
    while i < v.len()
        invariant
            v@ == all,
            i <= v.len(),
            views(out@).push(current@) == fields(all.take(i as int)),
        decreases v.len() - i,
    {
        proof {
            lemma_take_succ(all, i as int);
        }
        let ghost before = views(out@);
        let ghost was = current@;
        if v[i] == ',' {
            out.push(current);
            current = String::new();
        } else {
            push_char(&mut current, v[i]);
            assert(before.push(was).update(before.len() as int, current@) =~= before.push(
                current@,
            ));
        }
        i += 1;
    }
    proof {
        lemma_take_all(all);
    }
    out.push(current);
    out
}

/// The places that the tokens stand for, one after another; the first token that cannot be used
/// fails the whole. Blank tokens stand for nothing.
pub open spec fn all_places(tokens: Seq<Seq<char>>, len: int) -> Result<
    Seq<usize>,
    SelectionErrorView,
>
    decreases tokens.len(),
{
    if tokens.len() == 0 {
        Ok(Seq::empty())
    } else {
        match all_places(tokens.drop_last(), len) {
            Err(e) => Err(e),
            Ok(before) => if trimmed(tokens.last()).len() == 0 {
                Ok(before)
            } else {
                match token_places(trimmed(tokens.last()), len) {
                    Err(e) => Err(e),
                    Ok(more) => Ok(before + more),
                }
            },
        }
    }
}

/// The places that a selection stands for, each once, in the order in which they are named.
pub open spec fn selected(selection: Seq<char>, len: int) -> Result<
    Seq<usize>,
    SelectionErrorView,
> {
    if len == 0 {
        Ok(Seq::empty())
    } else {
        match all_places(fields(selection), len) {
            Err(e) => Err(e),
            Ok(places) => Ok(distinct(places)),
        }
    }
}

/// Adds a place unless it is there.
pub fn push_unique(vec: &mut Vec<usize>, value: usize)
    ensures
        final(vec)@ == if old(vec)@.contains(value) {
            old(vec)@
        } else {
            old(vec)@.push(value)
        },
{
    let mut i: usize = 0;
    while i < vec.len()
        invariant
            i <= vec.len(),
            vec@ == old(vec)@,
            forall|j: int| 0 <= j < i ==> vec@[j] != value,
        decreases vec.len() - i,
    {
        if vec[i] == value {
            return;
        }
        i += 1;
    }
    vec.push(value);
}

proof fn lemma_distinct_push(places: Seq<usize>, x: usize)
    ensures
        distinct(places.push(x)) == if distinct(places).contains(x) {
            distinct(places)
        } else {
            distinct(places).push(x)
        },
{
    assert(places.push(x).drop_last() =~= places);
}

/// Adds the places from `a` to `b`, each unless it is there.
fn push_span(vec: &mut Vec<usize>, a: usize, b: usize, Ghost(places): Ghost<Seq<usize>>)
    requires
        old(vec)@ == distinct(places),
    ensures
        final(vec)@ == distinct(places + span(a, b)),
{
    let ghost whole = span(a, b);
    let n: usize = if a <= b {
        b - a
    } else {
        a - b
    };
    let mut i: usize = 0;
    assert(places + whole.take(0) =~= places);
    while i < n
        invariant
            n == if a <= b {
                b - a
            } else {
                a - b
            },
            i <= n,
            whole == span(a, b),
            vec@ == distinct(places + whole.take(i as int)),
        decreases n - i,
    {
        let x: usize = if a <= b {
            a + i
        } else {
            a - i
        };
        proof {
            lemma_take_succ(whole, i as int);
            assert(places + whole.take(i + 1) =~= (places + whole.take(i as int)).push(x));
            lemma_distinct_push(places + whole.take(i as int), x);
        }
        push_unique(vec, x);
        i += 1;
    }
    proof {
        lemma_take_succ(whole, n as int);
        lemma_take_all(whole);
        assert(places + whole =~= (places + whole.take(n as int)).push(b));
        lemma_distinct_push(places + whole.take(n as int), b);
    }
    push_unique(vec, b);
}

/// The places that a selection stands for: numbers and ranges with commas between them. Negative
/// numbers count from the end, and a range may count down.
pub fn parse_selection(selection: &str, len: usize) -> (r: Result<Vec<usize>, SelectionError>)
    requires
        len <= isize::MAX,
    ensures
        match r {
            Ok(places) => selected(selection@, len as int) == Ok::<Seq<usize>, SelectionErrorView>(
                places@,
            ),
            Err(e) => selected(selection@, len as int) == Err::<Seq<usize>, SelectionErrorView>(e@),
        },
{
    let mut result: Vec<usize> = Vec::new();
    if len == 0 {
        assert(result@ =~= Seq::empty());
        return Ok(result);
    }
    let tokens = split_fields(selection);
    let ghost all = views(tokens@);
    let ghost mut places: Seq<usize> = Seq::empty();
    let mut i: usize = 0;
    assert(result@ =~= distinct(places));
    while i < tokens.len()
        invariant
            all == views(tokens@),
            all == fields(selection@),
            0 < len <= isize::MAX,
            i <= tokens.len(),
            all_places(all.take(i as int), len as int) == Ok::<Seq<usize>, SelectionErrorView>(
                places,
            ),
            result@ == distinct(places),
        decreases tokens.len() - i,
    {
        proof {
            lemma_take_succ(all, i as int);
        }
        let token = tokens[i].as_str();
        let v = chars_of(token);
        let (from, to) = trim_bounds(&v);
        let text = token.substring_char(from, to);
        assert(text@ == trimmed(all[i as int]));
        if from < to {
            match split_range(text) {
                Some((left, right)) => {
                    proof {
                        lemma_range_ends(text@, left@, right@);
                    }
                    let start: usize = match resolve_index(left, len) {
                        Ok(a) => a,
                        Err(e) => {
                            proof {
                                lemma_failed(all, i as int, len as int, e@);
                            }
                            return Err(e);
                        },
                    };
                    let end: usize = match resolve_index(right, len) {
                        Ok(b) => b,
                        Err(e) => {
                            proof {
                                lemma_failed(all, i as int, len as int, e@);
                            }
                            return Err(e);
                        },
                    };
                    push_span(&mut result, start, end, Ghost(places));
                    proof {
                        places = places + span(start, end);
                    }
                },
                None => {
                    let place: usize = match resolve_index(text, len) {
                        Ok(a) => a,
                        Err(e) => {
                            proof {
                                lemma_failed(all, i as int, len as int, e@);
                            }
                            return Err(e);
                        },
                    };
                    proof {
                        lemma_distinct_push(places, place);
                        assert(places + seq![place] =~= places.push(place));
                    }
                    push_unique(&mut result, place);
                    proof {
                        places = places + seq![place];
                    }
                },
            }
        }
        i += 1;
    }
    proof {
        lemma_take_all(all);
    }
    Ok(result)
}

/// A token that cannot be used fails the selection, whatever follows it.
proof fn lemma_failed(tokens: Seq<Seq<char>>, i: int, len: int, e: SelectionErrorView)
    requires
        0 <= i < tokens.len(),
        all_places(tokens.take(i + 1), len) == Err::<Seq<usize>, SelectionErrorView>(e),
    ensures
        all_places(tokens, len) == Err::<Seq<usize>, SelectionErrorView>(e),
    decreases tokens.len(),
{
    if i + 1 == tokens.len() {
        lemma_take_all(tokens);
    } else {
        assert(tokens.drop_last().take(i + 1) =~= tokens.take(i + 1));
        lemma_failed(tokens.drop_last(), i, len, e);
    }
}

/// Every place of a selection is one of the files, and no file is selected twice.
pub proof fn law_selection_is_sound(selection: Seq<char>, len: int)
    requires
        0 <= len <= isize::MAX,
    ensures
        selected(selection, len) matches Ok(places) ==> places.no_duplicates() && forall|i: int|
            0 <= i < places.len() ==> places[i] < len,
{
    if len > 0 && all_places(fields(selection), len) is Ok {
        let all = all_places(fields(selection), len)->Ok_0;
        crate::grouping::lemma_distinct(all);
        lemma_places_in_range(fields(selection), len);
        assert forall|i: int| 0 <= i < distinct(all).len() implies distinct(all)[i] < len by {
            assert(distinct(all).contains(distinct(all)[i]));
            assert(all.contains(distinct(all)[i]));
        }
    }
}

proof fn lemma_places_in_range(tokens: Seq<Seq<char>>, len: int)
    requires
        0 < len <= isize::MAX,
    ensures
        all_places(tokens, len) matches Ok(places) ==> forall|i: int|
            0 <= i < places.len() ==> places[i] < len,
    decreases tokens.len(),
{
    if tokens.len() > 0 {
        lemma_places_in_range(tokens.drop_last(), len);
    }
}

/// The place counted from the end.
pub fn neg_index(index: usize, len: usize) -> (r: isize)
    requires
        index <= isize::MAX,
        len <= isize::MAX,
    ensures
        r == index - len,
{
    index as isize - len as isize
}

/// A number rounded to a whole number of steps, to the even one where it lies in the middle.
pub open spec fn rounded(n: int, step: int) -> int {
    let q = n / step;
    let rest = n % step;
    if 2 * rest > step || (2 * rest == step && q % 2 == 1) {
        q + 1
    } else {
        q
    }
}

/// The step between double-precision numbers of the size of `n`, which has at most 64 bits, from
/// `step` on.
pub open spec fn double_step(n: int, step: int) -> int
    decreases 8192 - step,
{
    if 0 < step < 4096 && n / step >= 0x20_0000_0000_0000 {
        double_step(n, 2 * step)
    } else {
        step
    }
}

/// The double-precision number nearest to `n`.
pub open spec fn nearest_double(n: int) -> int {
    rounded(n, double_step(n, 1)) * double_step(n, 1)
}

/// A number of units with one digit after the point.
pub open spec fn tenths_text(tenths: int, unit: Seq<char>) -> Seq<char> {
    decimal((tenths / 10) as nat) + "."@ + seq![digit(tenths % 10)] + unit
}

/// A size in bytes, kilobytes, megabytes or gigabytes.
pub open spec fn size_text(size: int) -> Seq<char> {
    let x = nearest_double(size);
    if size < 1024 {
        decimal(size as nat) + "B"@
    } else if x < 0x10_0000 {
        tenths_text(rounded(10 * x, 0x400), "K"@)
    } else if x < 0x4000_0000 {
        tenths_text(rounded(10 * x, 0x10_0000), "M"@)
    } else {
        tenths_text(rounded(10 * x, 0x4000_0000), "G"@)
    }
}

fn round_to(n: u128, step: u128) -> (r: u128)
    requires
        0 < step <= 0x1_0000_0000,
        n < 0x100_0000_0000_0000_0000,
    ensures
        r == rounded(n as int, step as int),
{
    let q: u128 = n / step;
    let rest: u128 = n % step;
    if 2 * rest > step || (2 * rest == step && q % 2 == 1) {
        q + 1
    } else {
        q
    }
}

fn double_of(n: u64) -> (r: u128)
    ensures
        r == nearest_double(n as int),
        r <= 0x1_0000_0000_0000_0000,
{
    let mut step: u128 = 1;
    let wide: u128 = n as u128;
    while wide / step >= 0x20_0000_0000_0000
        invariant
            wide == n,
            0 < step <= 2048,
            step == 1 || step == 2 || step == 4 || step == 8 || step == 16 || step == 32 || step
                == 64 || step == 128 || step == 256 || step == 512 || step == 1024 || step == 2048,
            double_step(n as int, 1) == double_step(n as int, step as int),
        decreases 8192 - step,
    {
        proof {
            assert(step < 2048) by {
                if step == 2048 {
                    assert(wide / 2048 < 0x20_0000_0000_0000);
                }
            }
        }
        step = 2 * step;
    }
    let q: u128 = round_to(wide, step);
    proof {
        assert(q <= 0x20_0000_0000_0000);
        assert(q * step <= 0x20_0000_0000_0000 * 2048) by (nonlinear_arith)
            requires
                q <= 0x20_0000_0000_0000,
                0 < step <= 2048,
        ;
        assert(q * step >= 0) by (nonlinear_arith)
            requires
                q >= 0,
                step >= 0,
        ;
    }
    q * step
}

fn push_tenths(s: &mut String, tenths: u64, unit: &str)
    ensures
        final(s)@ == old(s)@ + tenths_text(tenths as int, unit@),
{
    let ghost before = s@;
    push_number(s, tenths / 10);
    push_text(s, ".");
    let code: u8 = 48 + (tenths % 10) as u8;
    push_char(s, code as char);
    push_text(s, unit);
    assert(s@ =~= before + tenths_text(tenths as int, unit@));
}

/// A size in bytes, kilobytes, megabytes or gigabytes.
pub fn human_size(size: u64) -> (r: String)
    ensures
        r@ == size_text(size as int),
{
    if size < 1024 {
        let mut s = number_text(size);
        push_text(&mut s, "B");
        return s;
    }
    let x: u128 = double_of(size);
    let mut s = String::new();
    if x < 0x10_0000 {
        push_tenths(&mut s, round_to(10 * x, 0x400) as u64, "K");
    } else if x < 0x4000_0000 {
        push_tenths(&mut s, round_to(10 * x, 0x10_0000) as u64, "M");
    } else {
        push_tenths(&mut s, round_to(10 * x, 0x4000_0000) as u64, "G");
    }
    assert(s@ =~= size_text(size as int));
    s
}

/// Sizes below a kilobyte are shown in bytes. Whole kilobytes, megabytes and gigabytes are shown as
/// that number of them, each unit from where the smaller one would have four digits on.
pub proof fn law_whole_sizes_are_shown_exactly(n: int)
    requires
        0 <= n < 1024,
    ensures
        size_text(n) == decimal(n as nat) + "B"@,
        n > 0 ==> size_text(n * 1024) == decimal(n as nat) + "."@ + seq!['0'] + "K"@,
        n > 0 ==> size_text(n * 0x10_0000) == decimal(n as nat) + "."@ + seq!['0'] + "M"@,
        n > 0 ==> size_text(n * 0x4000_0000) == decimal(n as nat) + "."@ + seq!['0'] + "G"@,
{
    assert(digit(0) == '0');
    assert(nearest_double(n * 1024) == n * 1024) by {
        lemma_small_is_exact(n * 1024);
    }
    assert(nearest_double(n * 0x10_0000) == n * 0x10_0000) by {
        lemma_small_is_exact(n * 0x10_0000);
    }
    assert(nearest_double(n * 0x4000_0000) == n * 0x4000_0000) by {
        lemma_small_is_exact(n * 0x4000_0000);
    }
}

proof fn lemma_small_is_exact(n: int)
    requires
        0 <= n < 0x20_0000_0000_0000,
    ensures
        nearest_double(n) == n,
{
    assert(n / 1 == n && n % 1 == 0);
    assert(double_step(n, 1) == 1);
}

} // verus!
