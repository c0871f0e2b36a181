//! Durations and labels as they are shown.

use crate::numbers::{decimal, push_number};
use crate::text::{
    begins_with, chars_of, is_whitespace, push_char, skip_chars, starts_with, text_of, trim, trimmed,
    trimmed_start,
};
use vstd::prelude::*;

verus! {

/// A part of a duration: nothing where it is 0.
pub open spec fn duration_part(n: int, unit: char) -> Seq<char> {
    if n > 0 {
        decimal(n as nat).push(unit)
    } else {
        Seq::empty()
    }
}

/// A duration in days, hours, minutes and seconds, without the parts that are 0.
pub open spec fn pretty(seconds: int) -> Seq<char> {
    if seconds == 0 {
        "0s"@
    } else {
        duration_part(seconds / 86400, 'd') + duration_part(seconds % 86400 / 3600, 'h')
            + duration_part(seconds % 3600 / 60, 'm') + duration_part(seconds % 60, 's')
    }
}

fn push_part(s: &mut String, n: u64, unit: char)
    ensures
        final(s)@ == old(s)@ + duration_part(n as int, unit),
{
    let ghost before = s@;
    if n > 0 {
        push_number(s, n);
        push_char(s, unit);
    }
    assert(s@ =~= before + duration_part(n as int, unit));
}

/// A duration in days, hours, minutes and seconds, without the parts that are 0.
pub fn pretty_duration(seconds: u64) -> (r: String)
    ensures
        r@ == pretty(seconds as int),
{
    if seconds == 0 {
        return "0s".to_string();
    }
    let mut result = String::new();
    push_part(&mut result, seconds / 86400, 'd');
    push_part(&mut result, seconds % 86400 / 3600, 'h');
    push_part(&mut result, seconds % 3600 / 60, 'm');
    push_part(&mut result, seconds % 60, 's');
    assert(result@ =~= pretty(seconds as int));
    result
}

/// A duration of so many days, hours, minutes and seconds is written as those numbers, each with its
/// unit and without the parts that are 0; no time at all is written as 0 seconds.
pub proof fn law_duration_is_written_in_parts(d: int, h: int, m: int, s: int)
    requires
        d >= 0,
        0 <= h < 24,
        0 <= m < 60,
        0 <= s < 60,
    ensures
        pretty(0) == "0s"@,
        d + h + m + s > 0 ==> pretty(((d * 24 + h) * 60 + m) * 60 + s) == (if d > 0 {
            decimal(d as nat).push('d')
        } else {
            Seq::empty()
        }) + (if h > 0 {
            decimal(h as nat).push('h')
        } else {
            Seq::empty()
        }) + (if m > 0 {
            decimal(m as nat).push('m')
        } else {
            Seq::empty()
        }) + (if s > 0 {
            decimal(s as nat).push('s')
        } else {
            Seq::empty()
        }),
{
    let n = ((d * 24 + h) * 60 + m) * 60 + s;
    assert(n == d * 86400 + h * 3600 + m * 60 + s);
    assert(n / 86400 == d && n % 86400 == h * 3600 + m * 60 + s);
    assert(n % 86400 / 3600 == h);
    assert(n % 3600 == m * 60 + s) by (nonlinear_arith)
        requires
            n == (d * 24 + h) * 3600 + (m * 60 + s),
            0 <= m * 60 + s < 3600,
    ;
    assert(n % 3600 / 60 == m);
    assert(n % 60 == s);
}

/// The parts of a duration add up to it, each below the next larger unit, and one at least is
/// shown.
pub proof fn law_duration_parts_add_up(seconds: int)
    requires
        seconds >= 0,
    ensures
        seconds / 86400 * 86400 + seconds % 86400 / 3600 * 3600 + seconds % 3600 / 60 * 60 + seconds
            % 60 == seconds,
        seconds % 86400 / 3600 < 24,
        seconds % 3600 / 60 < 60,
        pretty(seconds).len() > 0,
{
    reveal_strlit("0s");
    if seconds > 0 {
        let d = duration_part(seconds / 86400, 'd');
        let h = duration_part(seconds % 86400 / 3600, 'h');
        let m = duration_part(seconds % 3600 / 60, 'm');
        let s = duration_part(seconds % 60, 's');
        assert(d.len() > 0 || h.len() > 0 || m.len() > 0 || s.len() > 0);
    }
}

/// What follows the prefix, without white space at its start; none where the text does not begin
/// with it or the prefix is blank.
pub open spec fn after_prefix(title: Seq<char>, canonical: Seq<char>) -> Option<Seq<char>> {
    let prefix = trimmed(canonical);
    if prefix.len() == 0 {
        None
    } else if begins_with(title, prefix) {
        Some(trimmed_start(title.skip(prefix.len() as int)))
    } else {
        None
    }
}

/// The place of the first character from `start` on that is no white space.
fn first_visible(v: &Vec<char>, start: usize) -> (r: usize)
    requires
        start <= v.len(),
    ensures
        start <= r <= v.len(),
        v@.subrange(r as int, v@.len() as int) == trimmed_start(
            v@.subrange(start as int, v@.len() as int),
        ),
{
    let mut from: usize = start;
    while from < v.len() && is_whitespace(v[from])
        invariant
            start <= from <= v.len(),
            trimmed_start(v@.subrange(start as int, v@.len() as int)) == trimmed_start(
                v@.subrange(from as int, v@.len() as int),
            ),
        decreases v.len() - from,
    {
        assert(v@.subrange(from as int, v@.len() as int).drop_first() =~= v@.subrange(
            from + 1,
            v@.len() as int,
        ));
        from += 1;
    }
    from
}

/// The text without the white space at its start.
pub fn trim_start(s: &str) -> (r: String)
    ensures
        r@ == trimmed_start(s@),
{
    let v = chars_of(s);
    assert(v@.subrange(0, v@.len() as int) =~= v@);
    let from: usize = first_visible(&v, 0);
    text_of(&v, from, v.len())
}

/// What follows the prefix, without white space at its start.
pub fn strip_group_prefix<'a>(title: &'a str, canonical: &str) -> (r: Option<&'a str>)
    ensures
        match r {
            Some(rest) => after_prefix(title@, canonical@) == Some(rest@),
            None => after_prefix(title@, canonical@) is None,
        },
{
    let prefix = trim(canonical);
    let p = chars_of(prefix.as_str());
    if p.len() == 0 {
        return None;
    }
    if starts_with(title, prefix.as_str()) {
        let v = chars_of(title);
        let from: usize = first_visible(&v, p.len());
        let rest = title.substring_char(from, v.len());
        assert(v@.subrange(p@.len() as int, v@.len() as int) =~= v@.skip(p@.len() as int));
        Some(rest)
    } else {
        None
    }
}

/// The text up to the first colon.
pub open spec fn up_to_colon(s: Seq<char>) -> Seq<char>
    decreases s.len(),
{
    if s.len() == 0 || s[0] == ':' {
        Seq::empty()
    } else {
        seq![s[0]] + up_to_colon(s.skip(1))
    }
}

fn before_colon(s: &str) -> (r: String)
    ensures
        r@ == up_to_colon(s@),
{
    let v = chars_of(s);
    let mut i: usize = 0;
    let mut out = String::new();
    assert(v@.skip(0) =~= v@);
    assert(out@ + up_to_colon(v@) =~= up_to_colon(v@));
    while i < v.len() && v[i] != ':'
        invariant
            i <= v.len(),
            v@ == s@,
            out@ + up_to_colon(v@.skip(i as int)) == up_to_colon(s@),
        decreases v.len() - i,
    {
        let ghost before = out@;
        push_char(&mut out, v[i]);
        assert(v@.skip(i as int).skip(1) =~= v@.skip(i + 1));
        assert(out@ + up_to_colon(v@.skip(i + 1)) =~= before + up_to_colon(v@.skip(i as int)));
        i += 1;
    }
    assert(up_to_colon(v@.skip(i as int)) =~= Seq::empty());
    assert(out@ + Seq::<char>::empty() =~= out@);
    out
}

/// The title by which a group of windows is known, from the identifier of the group.
pub open spec fn group_key(window_id: Seq<char>) -> Option<Seq<char>> {
    if begins_with(window_id, "group:"@) {
        Some(window_id.skip("group:"@.len() as int))
    } else if begins_with(window_id, "group-temporal:"@) {
        Some(up_to_colon(window_id.skip("group-temporal:"@.len() as int)))
    } else {
        None
    }
}

/// The label of a group: its title without the key that it may begin with, and the whole title
/// where nothing else would be left.
pub open spec fn group_label(window_id: Seq<char>, title: Seq<char>) -> Seq<char> {
    let stripped = match group_key(window_id) {
        Some(key) => match after_prefix(title, key) {
            Some(rest) => rest,
            None => title,
        },
        None => title,
    };
    let label = trimmed_start(stripped);
    if label.len() == 0 {
        title
    } else {
        label
    }
}

/// The label of a group of windows.
pub fn group_label_for_display(window_id: &str, window_title: &str) -> (r: String)
    ensures
        r@ == group_label(window_id@, window_title@),
{
    proof {
        reveal_strlit("group:");
        reveal_strlit("group-temporal:");
    }
    let canonical = if starts_with(window_id, "group:") {
        Some(skip_chars(window_id, 6))
    } else if starts_with(window_id, "group-temporal:") {
        Some(before_colon(skip_chars(window_id, 15).as_str()))
    } else {
        None
    };
    let stripped = match canonical {
        Some(key) => match strip_group_prefix(window_title, key.as_str()) {
            Some(rest) => rest.to_string(),
            None => window_title.to_string(),
        },
        None => window_title.to_string(),
    };
    let label = trim_start(stripped.as_str());
    if label.as_str().is_empty() {
        window_title.to_string()
    } else {
        label
    }
}

} // verus!
