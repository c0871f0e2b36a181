//! A cache of bounded size that gives up the entry that was not used for the longest time.

use crate::text::same_text;
use vstd::prelude::*;

verus! {

/// A key by which a cache finds its entries.
pub trait CacheKey: View + Sized {
    /// Whether the two keys are the same.
    fn same_key(&self, other: &Self) -> (r: bool)
        ensures
            r == (self@ == other@),
    ;
}

impl CacheKey for String {
    fn same_key(&self, other: &Self) -> (r: bool) {
        same_text(self.as_str(), other.as_str())
    }
}

impl CacheKey for i32 {
    fn same_key(&self, other: &Self) -> (r: bool) {
        *self == *other
    }
}

impl CacheKey for u32 {
    fn same_key(&self, other: &Self) -> (r: bool) {
        *self == *other
    }
}

impl CacheKey for u64 {
    fn same_key(&self, other: &Self) -> (r: bool) {
        *self == *other
    }
}

struct Entry<K, V> {
    key: K,
    value: V,
    used: u128,
}

/// A monotonic clock reading, of `std::time::Instant`.
#[verifier::external_type_specification]
#[verifier::external_body]
pub struct ExInstant(std::time::Instant);

/// Reads the monotonic clock with `std::time::Instant::now`. Nothing is claimed of the reading.
#[verifier::external_body]
fn instant_now() -> std::time::Instant {
    std::time::Instant::now()
}

/// The nanoseconds since an earlier reading, by `std::time::Instant::elapsed`. Nothing is claimed
/// of the number.
#[verifier::external_body]
fn nanos_since(start: &std::time::Instant) -> u128 {
    start.elapsed().as_nanos()
}

/// A cache. Times are nanoseconds since it was made.
pub struct LruCache<K, V> {
    entries: Vec<Entry<K, V>>,
    capacity: usize,
    ttl: Option<u128>,
    made: std::time::Instant,
}

/// A cache as a mathematical value: each key with its value and the time at which it was last
/// used, how many there may be, and how long one may go unused.
#[verifier::ext_equal]
#[verifier::reject_recursive_types(A)]
pub struct CacheView<A, B> {
    pub entries: Map<A, (B, int)>,
    pub capacity: nat,
    pub ttl: Option<int>,
}

spec fn holds<K: CacheKey, V>(s: Seq<Entry<K, V>>, k: K::V) -> bool {
    exists|i: int| 0 <= i < s.len() && (#[trigger] s[i]).key@ == k
}

spec fn found<K: CacheKey, V>(s: Seq<Entry<K, V>>, k: K::V) -> (V, int) {
    let i = choose|i: int| 0 <= i < s.len() && (#[trigger] s[i]).key@ == k;
    (s[i].value, s[i].used as int)
}

spec fn contents<K: CacheKey, V>(s: Seq<Entry<K, V>>) -> Map<K::V, (V, int)> {
    Map::new(|k: K::V| holds(s, k), |k: K::V| found(s, k))
}

spec fn keys_differ<K: CacheKey, V>(s: Seq<Entry<K, V>>) -> bool {
    forall|i: int, j: int|
        0 <= i < j < s.len() ==> (#[trigger] s[i]).key@ != (#[trigger] s[j]).key@
}

proof fn lemma_contents<K: CacheKey, V>(s: Seq<Entry<K, V>>)
    requires
        keys_differ(s),
    ensures
        contents(s).dom().finite(),
        contents(s).len() == s.len(),
        forall|k: K::V| #[trigger] contents(s).dom().contains(k) <==> holds(s, k),
        forall|i: int|
            0 <= i < s.len() ==> contents(s).contains_key((#[trigger] s[i]).key@) && contents(
                s,
            )[s[i].key@] == (s[i].value, s[i].used as int),
{
    let ks = s.map_values(|e: Entry<K, V>| e.key@);
    assert(ks.no_duplicates());
    ks.unique_seq_to_set();
    assert forall|k: K::V| #[trigger] ks.to_set().contains(k) <==> holds(s, k) by {
        if ks.contains(k) {
            let i = choose|i: int| 0 <= i < ks.len() && ks[i] == k;
            assert(s[i].key@ == k);
        }
        if holds(s, k) {
            let i = choose|i: int| 0 <= i < s.len() && (#[trigger] s[i]).key@ == k;
            assert(ks[i] == k);
        }
    }
    assert(contents(s).dom() =~= ks.to_set());
    assert forall|i: int| 0 <= i < s.len() implies contents(s).contains_key(
        (#[trigger] s[i]).key@,
    ) && contents(s)[s[i].key@] == (s[i].value, s[i].used as int) by {
        assert(ks[i] == s[i].key@);
        assert(holds(s, s[i].key@));
    }
}

proof fn lemma_contents_remove<K: CacheKey, V>(s: Seq<Entry<K, V>>, i: int)
    requires
        keys_differ(s),
        0 <= i < s.len(),
    ensures
        keys_differ(s.remove(i)),
        contents(s.remove(i)) == contents(s).remove(s[i].key@),
{
    let t = s.remove(i);
    assert(forall|j: int| 0 <= j < t.len() ==> #[trigger] t[j] == s[if j < i { j } else { j + 1 }]);
    assert(keys_differ(t));
    lemma_contents(s);
    lemma_contents(t);
    assert forall|k: K::V| #[trigger] contents(t).dom().contains(k) <==> contents(s).remove(
        s[i].key@,
    ).dom().contains(k) by {
        if holds(t, k) {
            let j = choose|j: int| 0 <= j < t.len() && (#[trigger] t[j]).key@ == k;
            assert(t[j] == s[if j < i { j } else { j + 1 }]);
        }
        if holds(s, k) && k != s[i].key@ {
            let j = choose|j: int| 0 <= j < s.len() && (#[trigger] s[j]).key@ == k;
            assert(t[if j < i { j } else { j - 1 }] == s[j]);
        }
    }
    assert forall|k: K::V| contents(t).dom().contains(k) implies contents(t)[k] == contents(
        s,
    ).remove(s[i].key@)[k] by {
        let j = choose|j: int| 0 <= j < t.len() && (#[trigger] t[j]).key@ == k;
        assert(t[j] == s[if j < i { j } else { j + 1 }]);
    }
    assert(contents(t) =~= contents(s).remove(s[i].key@));
}

proof fn lemma_contents_update<K: CacheKey, V>(s: Seq<Entry<K, V>>, i: int, e: Entry<K, V>)
    requires
        keys_differ(s),
        0 <= i < s.len(),
        e.key@ == s[i].key@,
    ensures
        keys_differ(s.update(i, e)),
        contents(s.update(i, e)) == contents(s).insert(e.key@, (e.value, e.used as int)),
{
    let t = s.update(i, e);
    assert(keys_differ(t));
    lemma_contents(s);
    lemma_contents(t);
    let m = contents(s).insert(e.key@, (e.value, e.used as int));
    assert forall|k: K::V| #[trigger] contents(t).dom().contains(k) <==> m.dom().contains(k) by {
        if holds(t, k) {
            let j = choose|j: int| 0 <= j < t.len() && (#[trigger] t[j]).key@ == k;
            assert(s[j].key@ == k);
        }
        if holds(s, k) {
            let j = choose|j: int| 0 <= j < s.len() && (#[trigger] s[j]).key@ == k;
            assert(t[j].key@ == k);
        }
        assert(t[i].key@ == e.key@);
    }
    assert forall|k: K::V| contents(t).dom().contains(k) implies contents(t)[k] == m[k] by {
        let j = choose|j: int| 0 <= j < t.len() && (#[trigger] t[j]).key@ == k;
        assert(j != i ==> t[j] == s[j]);
    }
    assert(contents(t) =~= m);
}

proof fn lemma_contents_push<K: CacheKey, V>(s: Seq<Entry<K, V>>, e: Entry<K, V>)
    requires
        keys_differ(s),
        !holds(s, e.key@),
    ensures
        keys_differ(s.push(e)),
        contents(s.push(e)) == contents(s).insert(e.key@, (e.value, e.used as int)),
{
    let t = s.push(e);
    assert(keys_differ(t));
    lemma_contents(s);
    lemma_contents(t);
    let m = contents(s).insert(e.key@, (e.value, e.used as int));
    assert forall|k: K::V| #[trigger] contents(t).dom().contains(k) <==> m.dom().contains(k) by {
        if holds(t, k) {
            let j = choose|j: int| 0 <= j < t.len() && (#[trigger] t[j]).key@ == k;
            assert(j < s.len() ==> s[j].key@ == k);
        }
        if holds(s, k) {
            let j = choose|j: int| 0 <= j < s.len() && (#[trigger] s[j]).key@ == k;
            assert(t[j].key@ == k);
        }
        assert(t[s.len() as int].key@ == e.key@);
    }
    assert forall|k: K::V| contents(t).dom().contains(k) implies contents(t)[k] == m[k] by {
        let j = choose|j: int| 0 <= j < t.len() && (#[trigger] t[j]).key@ == k;
        assert(j < s.len() ==> t[j] == s[j]);
    }
    assert(contents(t) =~= m);
}

impl<A, B> CacheView<A, B> {
    /// There is an entry for the key, and it may still be used.
    pub open spec fn live(self, k: A, now: int) -> bool {
        self.entries.contains_key(k) && (self.ttl is Some ==> now - self.entries[k].1
            <= self.ttl->0)
    }

    /// The cache after a look-up. An entry that was found counts as used now; one that went
    /// unused for too long is dropped.
    pub open spec fn after_get(self, k: A, now: int) -> CacheView<A, B> {
        CacheView {
            entries: if self.live(k, now) {
                self.entries.insert(k, (self.entries[k].0, now))
            } else {
                self.entries.remove(k)
            },
            ..self
        }
    }

    /// No entry was last used before that of the key.
    pub open spec fn oldest(self, k: A) -> bool {
        self.entries.contains_key(k) && forall|other: A|
            #[trigger] self.entries.contains_key(other) ==> self.entries[k].1
                <= self.entries[other].1
    }

    /// No entry was used after the time `now`.
    pub open spec fn all_used_by(self, now: int) -> bool {
        forall|k: A| #[trigger]
            self.entries.contains_key(k) ==> self.entries[k].1 <= now
    }

    /// The cache with an entry put into it, before one is given up.
    pub open spec fn with_entry(self, k: A, v: B, now: int) -> CacheView<A, B> {
        CacheView { entries: self.entries.insert(k, (v, now)), ..self }
    }

    /// `after` is the cache without what it has to give up: nothing while there is room, else an
    /// entry that was not used for the longest time.
    pub open spec fn gives_up(self, after: CacheView<A, B>) -> bool {
        if self.entries.len() <= self.capacity {
            after == self
        } else {
            exists|k: A| #[trigger]
                self.oldest(k) && after == (CacheView { entries: self.entries.remove(k), ..self })
        }
    }
}

impl<K: CacheKey, V: Clone> View for LruCache<K, V> {
    type V = CacheView<K::V, V>;

    closed spec fn view(&self) -> CacheView<K::V, V> {
        CacheView {
            entries: contents(self.entries@),
            capacity: self.capacity as nat,
            ttl: match self.ttl {
                Some(nanos) => Some(nanos as int),
                None => None,
            },
        }
    }
}

impl<K: CacheKey, V: Clone> LruCache<K, V> {
    spec fn keyed(&self) -> bool {
        &&& keys_differ(self.entries@)
        &&& self.capacity >= 1
    }

    /// There is one entry for a key, and there are no more than there may be.
    pub closed spec fn wf(&self) -> bool {
        &&& self.keyed()
        &&& self.entries@.len() <= self.capacity
    }

    /// An empty cache for that many entries, one at least.
    pub fn with_capacity(capacity: usize) -> (r: Self)
        ensures
            r.wf(),
            r@.entries == Map::<K::V, (V, int)>::empty(),
            r@.capacity == if capacity >= 1 {
                capacity as nat
            } else {
                1
            },
            r@.ttl is None,
    {
        let r = LruCache {
            entries: Vec::new(),
            capacity: if capacity >= 1 {
                capacity
            } else {
                1
            },
            ttl: None,
            made: instant_now(),
        };
        proof {
            lemma_contents(r.entries@);
            assert(r@.entries =~= Map::empty());
        }
        r
    }

    /// An empty cache for that many entries, one at least, each of which may go unused for the
    /// given number of nanoseconds.
    pub fn with_capacity_and_ttl(capacity: usize, ttl_nanos: u128) -> (r: Self)
        ensures
            r.wf(),
            r@.entries == Map::<K::V, (V, int)>::empty(),
            r@.capacity == if capacity >= 1 {
                capacity as nat
            } else {
                1
            },
            r@.ttl == Some(ttl_nanos as int),
    {
        let mut r = LruCache::with_capacity(capacity);
        r.ttl = Some(ttl_nanos);
        r
    }

    /// How many entries there are.
    pub fn len(&self) -> (r: usize)
        requires
            self.wf(),
        ensures
            r == self@.entries.len(),
    {
        proof {
            lemma_contents(self.entries@);
        }
        self.entries.len()
    }

    fn position(&self, key: &K) -> (r: Option<usize>)
        ensures
            match r {
                Some(i) => i < self.entries@.len() && self.entries@[i as int].key@ == key@,
                None => !holds(self.entries@, key@),
            },
    {
        let mut i: usize = 0;
        while i < self.entries.len()
            invariant
                i <= self.entries.len(),
                forall|j: int| 0 <= j < i ==> (#[trigger] self.entries@[j]).key@ != key@,
            decreases self.entries.len() - i,
        {
            if self.entries[i].key.same_key(key) {
                return Some(i);
            }
            i += 1;
        }
        None
    }

    /// Looks up a key at the time `now`.
    pub fn get_cloned_at(&mut self, key: &K, now: u128) -> (r: Option<V>)
        requires
            old(self).wf(),
        ensures
            final(self).wf(),
            final(self)@ == old(self)@.after_get(key@, now as int),
            match r {
                Some(v) => old(self)@.live(key@, now as int) && cloned(
                    old(self)@.entries[key@].0,
                    v,
                ),
                None => !old(self)@.live(key@, now as int),
            },
    {
        let ghost before = self.entries@;
        proof {
            lemma_contents(before);
        }
        match self.position(key) {
            Some(i) => {
                let used: u128 = self.entries[i].used;
                let expired = match self.ttl {
                    Some(ttl) => now > used && now - used > ttl,
                    None => false,
                };
                assert(contents(before)[key@] == (before[i as int].value, used as int));
                if expired {
                    proof {
                        lemma_contents_remove(before, i as int);
                    }
                    let _ = self.entries.remove(i);
                    assert(self@ =~= old(self)@.after_get(key@, now as int));
                    None
                } else {
                    let entry = &mut self.entries[i];
                    entry.used = now;
                    proof {
                        lemma_contents_update(before, i as int, self.entries@[i as int]);
                        assert(self.entries@ =~= before.update(i as int, self.entries@[i as int]));
                        assert(self@ =~= old(self)@.after_get(key@, now as int));
                    }
                    Some(self.entries[i].value.clone())
                }
            },
            None => {
                assert(contents(before).remove(key@) =~= contents(before));
                None
            },
        }
    }

    /// The time of the latest use, or `reading` where that is later: a clock that is read twice
    /// does not go back.
    fn not_before_last_use(&self, reading: u128) -> (r: u128)
        requires
            self.wf(),
        ensures
            r >= reading,
            self@.all_used_by(r as int),
    {
        let ghost all = self.entries@;
        let mut now: u128 = reading;
        let mut i: usize = 0;
        while i < self.entries.len()
            invariant
                all == self.entries@,
                i <= all.len(),
                now >= reading,
                forall|j: int| 0 <= j < i ==> (#[trigger] all[j]).used <= now,
            decreases self.entries.len() - i,
        {
            if now < self.entries[i].used {
                now = self.entries[i].used;
            }
            i += 1;
        }
        proof {
            lemma_contents(all);
            assert forall|k: K::V| #[trigger] self@.entries.contains_key(k) implies self@.entries[k].1
                <= now by {
                let j = choose|j: int| 0 <= j < all.len() && (#[trigger] all[j]).key@ == k;
                assert(all[j].used <= now);
            }
        }
        now
    }

    /// Looks up a key now, which is no earlier than the latest use of any entry.
    pub fn get_cloned(&mut self, key: &K) -> (r: Option<V>)
        requires
            old(self).wf(),
        ensures
            final(self).wf(),
            exists|now: int|
                now >= 0 && old(self)@.all_used_by(now) && final(self)@
                    == #[trigger] old(self)@.after_get(key@, now) && match r {
                    Some(v) => old(self)@.live(key@, now) && cloned(
                        old(self)@.entries[key@].0,
                        v,
                    ),
                    None => !old(self)@.live(key@, now),
                },
    {
        let reading: u128 = nanos_since(&self.made);
        let now: u128 = self.not_before_last_use(reading);
        let ghost before = self@;
        let r = self.get_cloned_at(key, now);
        assert(self@ == before.after_get(key@, now as int));
        r
    }

    /// Puts a value under a key at the time `now`, in place of the one that was there.
    pub fn put_at(&mut self, key: K, value: V, now: u128)
        requires
            old(self).wf(),
        ensures
            final(self).wf(),
            old(self)@.with_entry(key@, value, now as int).gives_up(final(self)@),
            old(self)@.all_used_by(now as int) ==> final(self)@.entries.contains_key(key@)
                && final(self)@.entries[key@] == (value, now as int),
    {
        let ghost before = self.entries@;
        let ghost k = key@;
        let ghost v = value;
        match self.position(&key) {
            Some(i) => {
                let entry = &mut self.entries[i];
                entry.value = value;
                entry.used = now;
                proof {
                    lemma_contents_update(before, i as int, self.entries@[i as int]);
                    assert(self.entries@ =~= before.update(i as int, self.entries@[i as int]));
                }
            },
            None => {
                let entry = Entry { key, value, used: now };
                proof {
                    lemma_contents_push(before, entry);
                }
                self.entries.push(entry);
            },
        }
        assert(self@ =~= old(self)@.with_entry(k, v, now as int));
        let ghost put = self.entries@;
        proof {
            lemma_contents(before);
            lemma_contents(put);
            if old(self)@.all_used_by(now as int) {
                assert forall|j: int| 0 <= j < put.len() implies (#[trigger] put[j]).used
                    <= put.last().used || put.len() <= self.capacity by {
                    if j < before.len() {
                        assert(contents(before).contains_key(before[j].key@));
                    }
                }
            }
        }
        self.evict_if_needed();
    }

    /// Puts a value under a key now, which is no earlier than the latest use of any entry, in
    /// place of the one that was there.
    pub fn put(&mut self, key: K, value: V)
        requires
            old(self).wf(),
        ensures
            final(self).wf(),
            exists|now: int|
                now >= 0 && old(self)@.all_used_by(now) && #[trigger] old(self)@.with_entry(
                    key@,
                    value,
                    now,
                ).gives_up(final(self)@) && final(self)@.entries.contains_key(key@)
                    && final(self)@.entries[key@] == (value, now),
    {
        let reading: u128 = nanos_since(&self.made);
        let now: u128 = self.not_before_last_use(reading);
        let ghost before = self@;
        let ghost k = key@;
        self.put_at(key, value, now);
        assert(before.with_entry(k, value, now as int).gives_up(self@));
    }

    fn evict_if_needed(&mut self)
        requires
            old(self).keyed(),
            old(self).entries@.len() <= old(self).capacity + 1,
        ensures
            final(self).wf(),
            old(self)@.gives_up(final(self)@),
            old(self).entries@.len() > 0 && (forall|j: int|
                0 <= j < old(self).entries@.len() ==> (#[trigger] old(self).entries@[j]).used
                    <= old(self).entries@.last().used) ==> final(self)@.entries.contains_key(
                old(self).entries@.last().key@,
            ),
    {
        let ghost all = self.entries@;
        proof {
            lemma_contents(all);
        }
        if self.entries.len() <= self.capacity {
            return;
        }
        let mut best: usize = 0;
        let mut i: usize = 1;
        while i < self.entries.len()
            invariant
                self.entries@ == all,
                self.capacity == old(self).capacity,
                self.ttl == old(self).ttl,
                best < i <= self.entries.len(),
                forall|j: int|
                    0 <= j < i ==> all[best as int].used <= (#[trigger] all[j]).used,
                forall|j: int|
                    0 <= j < best ==> all[best as int].used < (#[trigger] all[j]).used,
            decreases self.entries.len() - i,
        {
            if self.entries[i].used < self.entries[best].used {
                best = i;
            }
            i += 1;
        }
        let ghost k = all[best as int].key@;
        proof {
            lemma_contents_remove(all, best as int);
            assert forall|other: K::V| #[trigger]
                contents(all).contains_key(other) implies contents(all)[k].1 <= contents(
                all,
            )[other].1 by {
                let j = choose|j: int| 0 <= j < all.len() && (#[trigger] all[j]).key@ == other;
                assert(all[best as int].used <= all[j].used);
            }
            assert(old(self)@.oldest(k));
            let last = all.len() - 1;
            assert(all.last() == all[last]);
            if all[0].used <= all[last].used {
                assert(best < last);
                assert(all[last].key@ != k);
            }
        }
        let _ = self.entries.remove(best);
        assert(self@ =~= (CacheView { entries: old(self)@.entries.remove(k), ..old(self)@ }));
    }
}

/// A cache never holds more entries than there may be, and may always hold one.
pub proof fn law_cache_stays_small<K: CacheKey, V: Clone>(cache: &LruCache<K, V>)
    requires
        cache.wf(),
    ensures
        cache@.entries.dom().finite(),
        cache@.entries.len() <= cache@.capacity,
        cache@.capacity >= 1,
{
    lemma_contents(cache.entries@);
}

/// What was put is found, unchanged, as long as it was not given up: at the time it was put or
/// later, until it went unused for too long.
pub proof fn law_put_is_found<A, B>(
    c: CacheView<A, B>,
    after: CacheView<A, B>,
    k: A,
    v: B,
    put: int,
    now: int,
)
    requires
        c.with_entry(k, v, put).gives_up(after),
        after.entries.contains_key(k),
        c.ttl is Some ==> now - put <= c.ttl->0,
    ensures
        after.live(k, now),
        after.entries[k] == (v, put),
{
}

/// An entry used after another is not given up for it: what leaves was used no later than
/// anything that stays.
pub proof fn law_recently_used_stays<A, B>(
    c: CacheView<A, B>,
    after: CacheView<A, B>,
    gone: A,
    stays: A,
)
    requires
        c.gives_up(after),
        c.entries.contains_key(gone),
        !after.entries.contains_key(gone),
        after.entries.contains_key(stays),
    ensures
        c.entries[gone].1 <= c.entries[stays].1,
        after.entries[stays] == c.entries[stays],
{
    let k = choose|k: A| #[trigger]
        c.oldest(k) && after == (CacheView { entries: c.entries.remove(k), ..c });
    assert(k == gone);
    assert(c.entries.contains_key(stays));
}

/// A look-up finds exactly what is in the cache and was not unused for too long. What it finds counts
/// as used, what was unused for too long is dropped, and no other entry is touched.
pub proof fn law_get_touches_its_key_alone<A, B>(c: CacheView<A, B>, k: A, now: int, other: A)
    requires
        other != k,
    ensures
        c.live(k, now) <==> c.entries.contains_key(k) && (c.ttl is None || now - c.entries[k].1
            <= c.ttl->0),
        c.after_get(k, now).entries.contains_key(k) <==> c.live(k, now),
        c.live(k, now) ==> c.after_get(k, now).entries[k] == (c.entries[k].0, now),
        c.after_get(k, now).entries.contains_key(other) <==> c.entries.contains_key(other),
        c.entries.contains_key(other) ==> c.after_get(k, now).entries[other] == c.entries[other],
        c.after_get(k, now).capacity == c.capacity,
        c.after_get(k, now).ttl == c.ttl,
{
}

/// Putting something in changes no other entry, and takes at most one away: none while there is
/// room, and one where there is not.
pub proof fn law_put_takes_at_most_one_away<A, B>(
    c: CacheView<A, B>,
    after: CacheView<A, B>,
    k: A,
    v: B,
    now: int,
    other: A,
)
    requires
        c.entries.dom().finite(),
        c.with_entry(k, v, now).gives_up(after),
        other != k,
    ensures
        after.entries.contains_key(other) ==> c.entries.contains_key(other)
            && after.entries[other] == c.entries[other],
        c.entries.insert(k, (v, now)).len() <= c.capacity ==> after.entries == c.entries.insert(
            k,
            (v, now),
        ),
        c.entries.insert(k, (v, now)).len() > c.capacity ==> after.entries.len()
            == c.entries.insert(k, (v, now)).len() - 1,
        after.capacity == c.capacity,
        after.ttl == c.ttl,
{
    let w = c.with_entry(k, v, now);
    if w.entries.len() > c.capacity {
        let gone = choose|x: A| #[trigger]
            w.oldest(x) && after == (CacheView { entries: w.entries.remove(x), ..w });
        assert(w.entries.contains_key(gone));
        assert(after.entries.dom() =~= w.entries.dom().remove(gone));
    }
}

} // verus!
