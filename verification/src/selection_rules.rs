//! What a selection of log files stands for: a number for one file, a range for all files between
//! two, and a list for what its parts stand for.

use crate::grouping::{distinct, lemma_distinct};
use crate::log_cli::{
    all_places, fields, has_range, is_range, is_range_dash, normalized, open_brackets, range_ends,
    resolved, selected, span, token_places, unbracketed, SelectionErrorView,
};
use crate::numbers::{
    decimal, is_digit, law_decimal_is_read_back, lemma_digits, signed_decimal, signed_number_in,
};
use crate::text::{is_white, trimmed, trimmed_start};
use vstd::prelude::*;

verus! {

spec fn is_plain_char(c: char) -> bool {
    is_digit(c) || c == '-'
}

proof fn lemma_plain_is_trimmed(s: Seq<char>)
    requires
        s.len() > 0,
        is_plain_char(s[0]) || s[0] == '(',
        is_plain_char(s.last()) || s.last() == ')',
    ensures
        trimmed(s) == s,
{
    assert(!is_white(s[0]));
    assert(trimmed_start(s) == s);
    assert(!is_white(s.last()));
}

proof fn lemma_no_brackets(s: Seq<char>)
    requires
        forall|i: int| 0 <= i < s.len() ==> is_plain_char(#[trigger] s[i]),
    ensures
        open_brackets(s) == 0,
    decreases s.len(),
{
    if s.len() > 0 {
        let b = s.drop_last();
        assert(forall|i: int| 0 <= i < b.len() ==> b[i] == s[i]);
        lemma_no_brackets(b);
        assert(is_plain_char(s[s.len() - 1]));
    }
}

proof fn lemma_one_field(s: Seq<char>)
    requires
        forall|i: int| 0 <= i < s.len() ==> #[trigger] s[i] != ',',
    ensures
        fields(s) == seq![s],
    decreases s.len(),
{
    if s.len() == 0 {
        assert(s =~= Seq::empty());
    } else {
        let b = s.drop_last();
        assert(forall|i: int| 0 <= i < b.len() ==> b[i] == s[i]);
        lemma_one_field(b);
        assert(s[s.len() - 1] != ',');
        assert(b.push(s.last()) =~= s);
        assert(fields(s) =~= seq![s]);
    }
}

proof fn lemma_one_token(t: Seq<char>, len: int)
    requires
        len > 0,
        t.len() > 0,
        trimmed(t) == t,
        forall|i: int| 0 <= i < t.len() ==> #[trigger] t[i] != ',',
    ensures
        selected(t, len) == match token_places(t, len) {
            Ok(places) => Ok(distinct(places)),
            Err(e) => Err(e),
        },
{
    lemma_one_field(t);
    let one = seq![t];
    assert(one.drop_last() =~= Seq::empty());
    assert(all_places(one.drop_last(), len) == Ok::<Seq<usize>, SelectionErrorView>(Seq::empty()));
    assert(one.last() == t);
    if token_places(t, len) is Ok {
        let places = token_places(t, len)->Ok_0;
        assert(Seq::empty() + places =~= places);
    }
}

proof fn lemma_number_text(n: int)
    ensures
        ({
            let t = signed_decimal(n);
            &&& t.len() > 0
            &&& trimmed(t) == t
            &&& unbracketed(t) == t
            &&& signed_number_in(t) == Some(n)
            &&& forall|i: int| 0 <= i < t.len() ==> is_plain_char(#[trigger] t[i])
            &&& forall|i: int| 0 < i < t.len() ==> is_digit(#[trigger] t[i])
        }),
{
    let t = signed_decimal(n);
    if n < 0 {
        lemma_digits((-n) as nat);
        law_decimal_is_read_back((-n) as nat);
        let d = decimal((-n) as nat);
        assert(t.skip(1) =~= d);
        assert forall|i: int| 0 < i < t.len() implies is_digit(#[trigger] t[i]) by {
            assert(t[i] == d[i - 1]);
        }
    } else {
        lemma_digits(n as nat);
        law_decimal_is_read_back(n as nat);
    }
    assert forall|i: int| 0 <= i < t.len() implies is_plain_char(#[trigger] t[i]) by {
        if i > 0 {
            assert(is_digit(t[i]));
        }
    }
    assert(t.last() == t[t.len() - 1]);
    lemma_plain_is_trimmed(t);
}

proof fn lemma_resolved_number(n: int, len: int)
    requires
        len > 0,
    ensures
        resolved(signed_decimal(n), len) == (if isize::MIN <= n <= isize::MAX {
            normalized(n, len)
        } else {
            Err(SelectionErrorView::InvalidIndex(signed_decimal(n)))
        }),
{
    lemma_number_text(n);
}

/// A number selects one file: counted from the first where it is not negative, and from behind the
/// last where it is. A number beyond the files selects none, and is refused as such.
pub proof fn law_number_selects_its_file(n: int, len: int)
    requires
        0 < len <= isize::MAX,
        isize::MIN <= n <= isize::MAX,
    ensures
        0 <= n < len ==> selected(signed_decimal(n), len) == Ok::<Seq<usize>, SelectionErrorView>(
            seq![n as usize],
        ),
        -len <= n < 0 ==> selected(signed_decimal(n), len) == Ok::<Seq<usize>, SelectionErrorView>(
            seq![(len + n) as usize],
        ),
        n >= len ==> selected(signed_decimal(n), len) == Err::<Seq<usize>, SelectionErrorView>(
            SelectionErrorView::TooLarge { index: n, last: len - 1 },
        ),
        n < -len ==> selected(signed_decimal(n), len) == Err::<Seq<usize>, SelectionErrorView>(
            SelectionErrorView::TooSmall { value: n, available: len },
        ),
{
    let t = signed_decimal(n);
    lemma_number_text(n);
    lemma_resolved_number(n, len);
    assert(!has_range(t)) by {
        assert forall|i: int| !(#[trigger] is_range_dash(t, i)) by {
            if 0 < i < t.len() {
                assert(is_digit(t[i]));
            }
        }
    }
    assert forall|i: int| 0 <= i < t.len() implies #[trigger] t[i] != ',' by {
        assert(is_plain_char(t[i]));
    }
    lemma_one_token(t, len);
    if token_places(t, len) is Ok {
        lemma_one_distinct(token_places(t, len)->Ok_0[0]);
    }
}

proof fn lemma_one_distinct(k: usize)
    ensures
        distinct(seq![k]) == seq![k],
{
    let one = seq![k];
    assert(one.drop_last() =~= Seq::empty());
    assert(distinct(one.drop_last()) =~= Seq::empty());
    assert(distinct(one) =~= one);
}

proof fn lemma_distinct_keeps(ks: Seq<usize>)
    requires
        ks.no_duplicates(),
    ensures
        distinct(ks) == ks,
    decreases ks.len(),
{
    if ks.len() > 0 {
        let b = ks.drop_last();
        assert forall|i: int, j: int| 0 <= i < b.len() && 0 <= j < b.len() && i != j implies b[i]
            != b[j] by {
            assert(b[i] == ks[i] && b[j] == ks[j]);
        }
        lemma_distinct_keeps(b);
        assert(!b.contains(ks.last()));
        assert(b.push(ks.last()) =~= ks);
    } else {
        assert(distinct(ks) =~= ks);
    }
}

/// Two numbers with a dash between them select all files from the first to the second, both
/// included, upwards or downwards.
pub proof fn law_range_selects_what_lies_between(a: int, b: int, len: int)
    requires
        0 < len <= isize::MAX,
        0 <= a < len,
        0 <= b < len,
    ensures
        ({
            let text = signed_decimal(a) + seq!['-'] + signed_decimal(b);
            let count = if a <= b {
                b - a + 1
            } else {
                a - b + 1
            };
            &&& selected(text, len) is Ok
            &&& selected(text, len)->Ok_0.len() == count
            &&& forall|i: int|
                0 <= i < count ==> #[trigger] selected(text, len)->Ok_0[i] == if a <= b {
                    a + i
                } else {
                    a - i
                }
        }),
{
    let left = signed_decimal(a);
    let right = signed_decimal(b);
    let text = left + seq!['-'] + right;
    let at = left.len() as int;
    lemma_number_text(a);
    lemma_number_text(b);
    lemma_resolved_number(a, len);
    lemma_resolved_number(b, len);
    assert forall|i: int| 0 <= i < text.len() implies is_plain_char(#[trigger] text[i]) && text[i]
        != ',' by {
        if i < at {
            assert(text[i] == left[i]);
        } else if i > at {
            assert(text[i] == right[i - at - 1]);
        }
    }
    assert(text.last() == text[text.len() - 1]);
    lemma_plain_is_trimmed(text);
    assert(text.take(at) =~= left);
    assert(text.skip(at + 1) =~= right);
    lemma_no_brackets(left);
    assert(text[at] == '-');
    assert(is_range_dash(text, at));
    assert forall|j: int| 0 <= j < at implies !is_range_dash(text, j) by {
        if j > 0 {
            assert(text[j] == left[j]);
            assert(is_digit(left[j]));
        }
    }
    assert(is_range(text, left, right));
    lemma_range_is(text, left, right);
    lemma_one_token(text, len);
    let places = span(a as usize, b as usize);
    assert(token_places(text, len) == Ok::<Seq<usize>, SelectionErrorView>(places));
    assert(places.no_duplicates());
    lemma_distinct_keeps(places);
}

proof fn lemma_range_is(token: Seq<char>, left: Seq<char>, right: Seq<char>)
    requires
        is_range(token, left, right),
    ensures
        has_range(token),
        range_ends(token) == (left, right),
{
    let t = trimmed(token);
    let ends = range_ends(token);
    assert(is_range(token, (left, right).0, (left, right).1));
    assert(is_range(token, ends.0, ends.1));
    let i = choose|i: int| #[trigger]
        is_range_dash(t, i) && (forall|j: int| 0 <= j < i ==> !is_range_dash(t, j)) && left
            == trimmed(t.take(i)) && right == trimmed(t.skip(i + 1));
    let k = choose|i: int| #[trigger]
        is_range_dash(t, i) && (forall|j: int| 0 <= j < i ==> !is_range_dash(t, j)) && ends.0
            == trimmed(t.take(i)) && ends.1 == trimmed(t.skip(i + 1));
    assert(i == k);
}

proof fn lemma_fields_join(a: Seq<char>, b: Seq<char>)
    ensures
        fields(a + seq![','] + b) == fields(a) + fields(b),
        fields(b).len() > 0,
    decreases b.len(),
{
    let all = a + seq![','] + b;
    if b.len() == 0 {
        assert(all.drop_last() =~= a);
        assert(fields(all) =~= fields(a) + fields(b));
    } else {
        lemma_fields_join(a, b.drop_last());
        assert(all.drop_last() =~= a + seq![','] + b.drop_last());
        assert(all.last() == b.last());
        assert(fields(all) =~= fields(a) + fields(b));
    }
}

proof fn lemma_places_join(a: Seq<Seq<char>>, b: Seq<Seq<char>>, len: int)
    ensures
        all_places(a + b, len) == match (all_places(a, len), all_places(b, len)) {
            (Err(e), _) => Err(e),
            (Ok(_), Err(e)) => Err(e),
            (Ok(x), Ok(y)) => Ok::<Seq<usize>, SelectionErrorView>(x + y),
        },
    decreases b.len(),
{
    if b.len() == 0 {
        assert(a + b =~= a);
        if all_places(a, len) is Ok {
            assert(all_places(a, len)->Ok_0 + Seq::<usize>::empty() =~= all_places(a, len)->Ok_0);
        }
    } else {
        assert((a + b).drop_last() =~= a + b.drop_last());
        assert((a + b).last() == b.last());
        lemma_places_join(a, b.drop_last(), len);
        if all_places(a, len) is Ok && all_places(b, len) is Ok && trimmed(b.last()).len() > 0 {
            let x = all_places(a, len)->Ok_0;
            let y = all_places(b.drop_last(), len)->Ok_0;
            let z = token_places(trimmed(b.last()), len)->Ok_0;
            assert(x + y + z =~= x + (y + z));
        }
    }
}

/// A list selects what its parts select, first what the first part does; files that were selected
/// before are not selected again. Where a part is refused the list is, in the words of the first
/// part that is.
pub proof fn law_list_selects_what_its_parts_do(a: Seq<char>, b: Seq<char>, len: int)
    requires
        len > 0,
    ensures
        ({
            let both = selected(a + seq![','] + b, len);
            &&& selected(a, len) is Err ==> both == selected(a, len)
            &&& selected(a, len) is Ok && selected(b, len) is Err ==> both == selected(b, len)
            &&& selected(a, len) is Ok && selected(b, len) is Ok ==> {
                &&& both is Ok
                &&& selected(a, len)->Ok_0.is_prefix_of(both->Ok_0)
                &&& forall|i: usize| #[trigger]
                    both->Ok_0.contains(i) <==> selected(a, len)->Ok_0.contains(i) || selected(
                        b,
                        len,
                    )->Ok_0.contains(i)
            }
        }),
{
    lemma_fields_join(a, b);
    lemma_places_join(fields(a), fields(b), len);
    if selected(a, len) is Ok && selected(b, len) is Ok {
        let x = all_places(fields(a), len)->Ok_0;
        let y = all_places(fields(b), len)->Ok_0;
        lemma_distinct(x);
        lemma_distinct(y);
        lemma_distinct(x + y);
        lemma_distinct_prefix(x, y);
        assert forall|i: usize| #[trigger] distinct(x + y).contains(i) <==> distinct(x).contains(i)
            || distinct(y).contains(i) by {
            if (x + y).contains(i) {
                let k = choose|k: int| 0 <= k < (x + y).len() && (x + y)[k] == i;
                if k < x.len() {
                    assert(x[k] == i);
                    assert(x.contains(i));
                } else {
                    assert(y[k - x.len()] == i);
                    assert(y.contains(i));
                }
            }
            if x.contains(i) {
                let k = choose|k: int| 0 <= k < x.len() && x[k] == i;
                assert((x + y)[k] == i);
            }
            if y.contains(i) {
                let k = choose|k: int| 0 <= k < y.len() && y[k] == i;
                assert((x + y)[x.len() + k] == i);
            }
        }
    }
}

proof fn lemma_distinct_prefix(x: Seq<usize>, y: Seq<usize>)
    ensures
        distinct(x).is_prefix_of(distinct(x + y)),
    decreases y.len(),
{
    if y.len() == 0 {
        assert(x + y =~= x);
    } else {
        assert((x + y).drop_last() =~= x + y.drop_last());
        lemma_distinct_prefix(x, y.drop_last());
        let d = distinct(x + y.drop_last());
        let e = distinct(x + y);
        assert(d.is_prefix_of(e));
        assert forall|i: int| 0 <= i < distinct(x).len() implies distinct(x)[i] == e[i] by {
            assert(distinct(x)[i] == d[i]);
        }
    }
}

/// Where there are no files, nothing is selected, whatever is asked for.
pub proof fn law_nothing_is_selected_of_no_files(selection: Seq<char>)
    ensures
        selected(selection, 0) == Ok::<Seq<usize>, SelectionErrorView>(Seq::empty()),
{
}

/// Brackets and white space around a number make no difference.
pub proof fn law_brackets_make_no_difference(n: int, len: int)
    requires
        len > 0,
    ensures
        resolved(seq!['('] + signed_decimal(n) + seq![')'], len) == resolved(
            signed_decimal(n),
            len,
        ),
{
    let t = signed_decimal(n);
    let s = seq!['('] + t + seq![')'];
    lemma_number_text(n);
    assert(s[0] == '(' && s.last() == ')');
    lemma_plain_is_trimmed(s);
    assert(s.subrange(1, s.len() - 1) =~= t);
    assert(unbracketed(s) == unbracketed(t));
}

} // verus!
