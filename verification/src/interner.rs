//! Shares equal strings, so that titles and application names are held once.

use crate::views::{group_views, lemma_take_all, lemma_take_succ, views};
use std::sync::Arc;
use vstd::prelude::*;

verus! {

/// The number of strings at which the interner starts over.
pub const MAX_ENTRIES: usize = 4096;

/// The strings still in use elsewhere, in order.
pub open spec fn in_use(entries: Seq<Seq<char>>, live: Seq<bool>) -> Seq<Seq<char>>
    recommends
        entries.len() == live.len(),
    decreases entries.len(),
{
    if entries.len() == 0 {
        Seq::empty()
    } else {
        let before = in_use(entries.drop_last(), live.drop_last());
        if live.last() {
            before.push(entries.last())
        } else {
            before
        }
    }
}

/// What a sweep leaves: the strings in use, or none once they reach the limit.
pub open spec fn swept(entries: Seq<Seq<char>>, live: Seq<bool>, max_entries: nat) -> Seq<
    Seq<char>,
> {
    if in_use(entries, live).len() >= max_entries {
        Seq::empty()
    } else {
        in_use(entries, live)
    }
}

/// What holding on to `s` as well makes of the strings.
pub open spec fn with_string(entries: Seq<Seq<char>>, s: Seq<char>) -> Seq<Seq<char>> {
    if entries.contains(s) {
        entries
    } else {
        entries.push(s)
    }
}

/// Holds one shared copy of each string that is in use. A string that nothing else refers to any
/// more is dropped at the next call.
pub struct StringInterner {
    entries: Vec<Arc<String>>,
    max_entries: usize,
}

/// How many owners the shared string has, by `Arc::strong_count`. It depends on what other parts
/// of the program hold, so nothing is claimed of it.
#[verifier::external_body]
fn owners(s: &Arc<String>) -> usize {
    Arc::strong_count(s)
}

impl View for StringInterner {
    type V = Seq<Seq<char>>;

    closed spec fn view(&self) -> Seq<Seq<char>> {
        views(self.entries@)
    }
}

impl StringInterner {
    pub closed spec fn max_entries(&self) -> nat {
        self.max_entries as nat
    }

    pub fn new() -> (r: Self)
        ensures
            r@ == Seq::<Seq<char>>::empty(),
            r.max_entries() == MAX_ENTRIES,
    {
        Self::with_max_entries(MAX_ENTRIES)
    }

    /// An interner that starts over when it holds `max_entries` strings.
    pub fn with_max_entries(max_entries: usize) -> (r: Self)
        ensures
            r@ == Seq::<Seq<char>>::empty(),
            r.max_entries() == max_entries,
    {
        let r = StringInterner { entries: Vec::new(), max_entries };
        assert(r@ =~= Seq::<Seq<char>>::empty());
        r
    }

    /// The number of strings held.
    pub fn len(&self) -> (r: usize)
        ensures
            r == self@.len(),
    {
        self.entries.len()
    }

    /// The place of `s` among the strings held.
    fn find(&self, s: &str) -> (r: Option<usize>)
        ensures
            match r {
                Some(i) => i < self@.len() && self@[i as int] == s@,
                None => !self@.contains(s@),
            },
    {
        let key = s.to_string();
        let mut i: usize = 0;
        while i < self.entries.len()
            invariant
                key@ == s@,
                i <= self.entries.len(),
                forall|j: int| 0 <= j < i ==> (#[trigger] self@[j]) != s@,
            decreases self.entries.len() - i,
        {
            if *self.entries[i] == key {
                return Some(i);
            }
            i += 1;
        }
        None
    }

    /// Whether `s` is held.
    pub fn contains(&self, s: &str) -> (r: bool)
        ensures
            r == self@.contains(s@),
    {
        self.find(s).is_some()
    }

    /// Which of the strings have an owner besides the interner.
    fn liveness(&self) -> (r: Vec<bool>)
        ensures
            r.len() == self@.len(),
    {
        let mut live: Vec<bool> = Vec::new();
        let mut i: usize = 0;
        while i < self.entries.len()
            invariant
                i <= self.entries.len(),
                live.len() == i,
            decreases self.entries.len() - i,
        {
            live.push(owners(&self.entries[i]) > 1);
            i += 1;
        }
        live
    }

    /// Drops the strings not in use, and all of them once they reach the limit.
    fn cleanup_dead_references(&mut self, live: &Vec<bool>)
        requires
            live.len() == old(self)@.len(),
        ensures
            final(self)@ == swept(old(self)@, live@, old(self).max_entries()),
            final(self).max_entries() == old(self).max_entries(),
    {
        broadcast use group_views;

        let ghost all = self@;
        let mut left: Vec<Arc<String>> = Vec::new();
        let mut i: usize = 0;
        assert(views(left@) =~= in_use(all.take(0), live@.take(0)));
        while i < self.entries.len()
            invariant
                all == views(self.entries@),
                live.len() == all.len(),
                i <= self.entries.len(),
                views(left@) == in_use(all.take(i as int), live@.take(i as int)),
            decreases self.entries.len() - i,
        {
            proof {
                lemma_take_succ(all, i as int);
                lemma_take_succ(live@, i as int);
            }
            if live[i] {
                left.push(self.entries[i].clone());
            }
            i += 1;
        }
        proof {
            lemma_take_all(all);
            lemma_take_all(live@);
        }
        self.entries = left;
        if self.entries.len() >= self.max_entries {
            self.entries = Vec::new();
            assert(self@ =~= Seq::<Seq<char>>::empty());
        }
    }

    /// Interns `s`, when `live` tells which of the strings held are in use elsewhere.
    pub fn intern_given(&mut self, s: &str, live: &Vec<bool>) -> (r: Arc<String>)
        requires
            live.len() == old(self)@.len(),
        ensures
            r@ == s@,
            final(self)@ == with_string(swept(old(self)@, live@, old(self).max_entries()), s@),
            final(self).max_entries() == old(self).max_entries(),
    {
        broadcast use group_views;

        self.cleanup_dead_references(live);
        match self.find(s) {
            Some(i) => self.entries[i].clone(),
            None => {
                let shared = Arc::new(s.to_string());
                self.entries.push(shared.clone());
                shared
            },
        }
    }

    /// The shared copy of `s`: the one held, where there is one, and a new one otherwise.
    pub fn intern(&mut self, s: &str) -> (r: Arc<String>)
        ensures
            r@ == s@,
            final(self)@.contains(s@),
            final(self).max_entries() == old(self).max_entries(),
            exists|live: Seq<bool>|
                live.len() == old(self)@.len() && final(self)@ == with_string(
                    #[trigger] swept(old(self)@, live, old(self).max_entries()),
                    s@,
                ),
    {
        let live = self.liveness();
        let ghost before = swept(self@, live@, self.max_entries());
        let r = self.intern_given(s, &live);
        assert(self@.contains(s@)) by {
            if !before.contains(s@) {
                assert(self@[before.len() as int] == s@);
            }
        }
        r
    }
}

/// The interner never holds more strings than its limit, or one where the limit is 0.
pub proof fn law_interner_stays_small(
    entries: Seq<Seq<char>>,
    live: Seq<bool>,
    max_entries: nat,
    s: Seq<char>,
)
    ensures
        with_string(swept(entries, live, max_entries), s).len() <= if max_entries == 0 {
            1
        } else {
            max_entries
        },
{
}

proof fn lemma_in_use_from(entries: Seq<Seq<char>>, live: Seq<bool>)
    requires
        entries.len() == live.len(),
    ensures
        forall|i: int|
            0 <= i < in_use(entries, live).len() ==> entries.contains(
                #[trigger] in_use(entries, live)[i],
            ),
        entries.no_duplicates() ==> in_use(entries, live).no_duplicates(),
    decreases entries.len(),
{
    if entries.len() > 0 {
        let b = entries.drop_last();
        lemma_in_use_from(b, live.drop_last());
        let u = in_use(b, live.drop_last());
        assert forall|i: int| 0 <= i < in_use(entries, live).len() implies entries.contains(
            #[trigger] in_use(entries, live)[i],
        ) by {
            if i < u.len() {
                assert(b.contains(u[i]));
                let j = choose|j: int| 0 <= j < b.len() && b[j] == u[i];
                assert(entries[j] == u[i]);
            } else {
                assert(entries[entries.len() - 1] == in_use(entries, live)[i]);
            }
        }
        if entries.no_duplicates() {
            assert forall|i: int, j: int|
                0 <= i < j < in_use(entries, live).len() implies in_use(entries, live)[i] != in_use(
                entries,
                live,
            )[j] by {
                if j >= u.len() {
                    assert(b.contains(u[i]));
                    let m = choose|m: int| 0 <= m < b.len() && b[m] == u[i];
                    assert(entries[m] != entries[entries.len() - 1]);
                }
            }
        }
    }
}

/// No string is held twice.
pub proof fn law_interner_holds_each_string_once(
    entries: Seq<Seq<char>>,
    live: Seq<bool>,
    max_entries: nat,
    s: Seq<char>,
)
    requires
        entries.len() == live.len(),
        entries.no_duplicates(),
    ensures
        with_string(swept(entries, live, max_entries), s).no_duplicates(),
{
    lemma_in_use_from(entries, live);
    let e = swept(entries, live, max_entries);
    if !e.contains(s) {
        assert forall|i: int, j: int| 0 <= i < j < e.push(s).len() implies e.push(s)[i] != e.push(
            s,
        )[j] by {
            assert(e.contains(e.push(s)[i]));
        }
    }
}

/// A sweep keeps exactly the strings in use, in order, unless they have reached the limit.
pub proof fn law_sweep_keeps_what_is_in_use(
    entries: Seq<Seq<char>>,
    live: Seq<bool>,
    s: Seq<char>,
    used: bool,
)
    requires
        entries.len() == live.len(),
    ensures
        in_use(Seq::empty(), Seq::empty()) == Seq::<Seq<char>>::empty(),
        in_use(entries.push(s), live.push(used)) == if used {
            in_use(entries, live).push(s)
        } else {
            in_use(entries, live)
        },
        forall|max_entries: nat|
            in_use(entries, live).len() < max_entries ==> #[trigger] swept(
                entries,
                live,
                max_entries,
            ) == in_use(entries, live),
{
    assert(entries.push(s).drop_last() =~= entries);
    assert(live.push(used).drop_last() =~= live);
}

/// After a string was asked for it is held, and what was held before still is, in the same order.
pub proof fn law_string_asked_for_is_held(entries: Seq<Seq<char>>, s: Seq<char>)
    ensures
        with_string(entries, s).contains(s),
        entries.is_prefix_of(with_string(entries, s)),
        entries.contains(s) ==> with_string(entries, s) == entries,
        !entries.contains(s) ==> with_string(entries, s).len() == entries.len() + 1,
{
    if !entries.contains(s) {
        assert(with_string(entries, s)[entries.len() as int] == s);
    }
}

} // verus!
