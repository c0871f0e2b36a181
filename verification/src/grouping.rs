//! Grouping items by a key, in the order in which the keys first appear, and sorting by recency.

use crate::time::Timestamp;
use crate::views::views;
use vstd::prelude::*;

verus! {

/// The distinct keys of `keys`, each at the place of its first appearance.
pub open spec fn distinct<K>(keys: Seq<K>) -> Seq<K>
    decreases keys.len(),
{
    if keys.len() == 0 {
        Seq::empty()
    } else {
        let before = distinct(keys.drop_last());
        if before.contains(keys.last()) {
            before
        } else {
            before.push(keys.last())
        }
    }
}

/// The items whose key is `k`, in order.
pub open spec fn members<T, K>(s: Seq<T>, key: spec_fn(T) -> K, k: K) -> Seq<T>
    decreases s.len(),
{
    if s.len() == 0 {
        Seq::empty()
    } else {
        let before = members(s.drop_last(), key, k);
        if key(s.last()) == k {
            before.push(s.last())
        } else {
            before
        }
    }
}

/// The distinct keys of the items, in order of first appearance.
pub open spec fn keys_of<T, K>(s: Seq<T>, key: spec_fn(T) -> K) -> Seq<K> {
    distinct(s.map_values(key))
}

/// One result per key: what `make` makes of the items with that key.
pub open spec fn grouped<T, K, G>(
    s: Seq<T>,
    key: spec_fn(T) -> K,
    make: spec_fn(Seq<T>) -> G,
) -> Seq<G> {
    keys_of(s, key).map_values(|k: K| make(members(s, key, k)))
}

/// The items that meet the condition, in order.
pub open spec fn kept<T>(s: Seq<T>, keep: spec_fn(T) -> bool) -> Seq<T>
    decreases s.len(),
{
    if s.len() == 0 {
        Seq::empty()
    } else if keep(s.last()) {
        kept(s.drop_last(), keep).push(s.last())
    } else {
        kept(s.drop_last(), keep)
    }
}

/// The sum of a quantity over the items.
pub open spec fn sum_of<T>(s: Seq<T>, amount: spec_fn(T) -> int) -> int
    decreases s.len(),
{
    if s.len() == 0 {
        0
    } else {
        sum_of(s.drop_last(), amount) + amount(s.last())
    }
}

/// The largest value of a quantity over the items, and 0 where there is none above it.
pub open spec fn max_of<T>(s: Seq<T>, amount: spec_fn(T) -> int) -> int
    decreases s.len(),
{
    if s.len() == 0 {
        0
    } else {
        let before = max_of(s.drop_last(), amount);
        if amount(s.last()) > before {
            amount(s.last())
        } else {
            before
        }
    }
}

/// The earliest of the items' instants.
pub open spec fn earliest<T>(s: Seq<T>, at: spec_fn(T) -> Timestamp) -> Timestamp
    recommends
        s.len() > 0,
    decreases s.len(),
{
    if s.len() <= 1 {
        at(s[0])
    } else {
        earliest(s.drop_last(), at).earlier(at(s.last()))
    }
}

/// The latest of the items' instants.
pub open spec fn latest<T>(s: Seq<T>, at: spec_fn(T) -> Timestamp) -> Timestamp
    recommends
        s.len() > 0,
    decreases s.len(),
{
    if s.len() <= 1 {
        at(s[0])
    } else {
        latest(s.drop_last(), at).later(at(s.last()))
    }
}

pub proof fn lemma_distinct<K>(keys: Seq<K>)
    ensures
        distinct(keys).no_duplicates(),
        forall|k: K| distinct(keys).contains(k) <==> keys.contains(k),
        distinct(keys).len() <= keys.len(),
    decreases keys.len(),
{
    if keys.len() > 0 {
        let before = keys.drop_last();
        lemma_distinct(before);
        assert(keys =~= before.push(keys.last()));
        assert forall|k: K| distinct(keys).contains(k) <==> keys.contains(k) by {
            let d = distinct(before);
            if keys.contains(k) {
                let i = choose|i: int| 0 <= i < keys.len() && keys[i] == k;
                if i < before.len() {
                    assert(before[i] == k);
                    assert(before.contains(k));
                    assert(d.contains(k));
                    let j = choose|j: int| 0 <= j < d.len() && d[j] == k;
                    assert(distinct(keys)[j] == k);
                } else if d.contains(k) {
                } else {
                    assert(distinct(keys)[d.len() as int] == k);
                }
            }
            if distinct(keys).contains(k) {
                let j = choose|j: int| 0 <= j < distinct(keys).len() && distinct(keys)[j] == k;
                if j < d.len() {
                    assert(d[j] == k);
                    assert(d.contains(k) && before.contains(k));
                    let i = choose|i: int| 0 <= i < before.len() && before[i] == k;
                    assert(keys[i] == k);
                } else {
                    assert(keys[keys.len() - 1] == k);
                }
            }
        }
    }
}

/// Every member has the key; a key that occurs has a member; no other key has one.
pub proof fn lemma_members<T, K>(s: Seq<T>, key: spec_fn(T) -> K, k: K)
    ensures
        forall|i: int|
            0 <= i < members(s, key, k).len() ==> key(#[trigger] members(s, key, k)[i]) == k,
        forall|i: int|
            0 <= i < members(s, key, k).len() ==> s.contains(#[trigger] members(s, key, k)[i]),
        members(s, key, k).len() > 0 <==> keys_of(s, key).contains(k),
        members(s, key, k).len() <= s.len(),
    decreases s.len(),
{
    lemma_distinct(s.map_values(key));
    if s.len() > 0 {
        let t = s.drop_last();
        lemma_members(t, key, k);
        lemma_distinct(t.map_values(key));
        assert(s =~= t.push(s.last()));
        assert(s.map_values(key).drop_last() =~= t.map_values(key));
        assert forall|i: int| 0 <= i < members(s, key, k).len() implies s.contains(
            #[trigger] members(s, key, k)[i],
        ) by {
            if i < members(t, key, k).len() {
                assert(t.contains(members(t, key, k)[i]));
                let j = choose|j: int| 0 <= j < t.len() && t[j] == members(t, key, k)[i];
                assert(s[j] == members(s, key, k)[i]);
            } else {
                assert(s[s.len() - 1] == members(s, key, k)[i]);
            }
        }
        if members(s, key, k).len() > 0 {
            if key(s.last()) == k {
                assert(s.map_values(key)[s.len() - 1] == k);
                assert(s.map_values(key).contains(k));
            } else {
                assert(keys_of(t, key).contains(k));
                assert(t.map_values(key).contains(k));
                let j = choose|j: int| 0 <= j < t.len() && t.map_values(key)[j] == k;
                assert(s.map_values(key)[j] == k);
                assert(s.map_values(key).contains(k));
            }
            assert(keys_of(s, key).contains(k));
        }
        if keys_of(s, key).contains(k) && members(s, key, k).len() == 0 {
            assert(s.map_values(key).contains(k));
            let j = choose|j: int| 0 <= j < s.len() && s.map_values(key)[j] == k;
            assert(key(s.last()) != k);
            assert(t.map_values(key)[j] == k);
            assert(t.map_values(key).contains(k));
            assert(keys_of(t, key).contains(k));
        }
    }
}

/// What one more item does to a grouping: it joins the group of its key, or starts one.
pub proof fn lemma_grouped_push<T, K, G>(
    s: Seq<T>,
    t: T,
    key: spec_fn(T) -> K,
    make: spec_fn(Seq<T>) -> G,
)
    ensures
        keys_of(s, key).contains(key(t)) ==> {
            let i = keys_of(s, key).index_of(key(t));
            &&& 0 <= i < grouped(s, key, make).len()
            &&& keys_of(s, key)[i] == key(t)
            &&& grouped(s.push(t), key, make) == grouped(s, key, make).update(
                i,
                make(members(s, key, key(t)).push(t)),
            )
            &&& keys_of(s.push(t), key) == keys_of(s, key)
        },
        !keys_of(s, key).contains(key(t)) ==> {
            &&& grouped(s.push(t), key, make) == grouped(s, key, make).push(make(seq![t]))
            &&& keys_of(s.push(t), key) == keys_of(s, key).push(key(t))
        },
{
    let ks = keys_of(s, key);
    let after = s.push(t);
    assert(after.drop_last() =~= s);
    assert(after.map_values(key).drop_last() =~= s.map_values(key));
    lemma_distinct(s.map_values(key));
    lemma_distinct(after.map_values(key));
    if ks.contains(key(t)) {
        let i = ks.index_of(key(t));
        assert(keys_of(after, key) == ks);
        assert(grouped(after, key, make) =~= grouped(s, key, make).update(
            i,
            make(members(s, key, key(t)).push(t)),
        )) by {
            assert forall|j: int| 0 <= j < ks.len() && j != i implies members(
                after,
                key,
                #[trigger] ks[j],
            ) == members(s, key, ks[j]) by {
                assert(ks[j] != ks[i]);
            }
        }
    } else {
        assert(keys_of(after, key) == ks.push(key(t)));
        lemma_members(s, key, key(t));
        assert(members(after, key, key(t)) =~= seq![t]);
        assert(grouped(after, key, make) =~= grouped(s, key, make).push(make(seq![t]))) by {
            assert forall|j: int| 0 <= j < ks.len() implies members(after, key, #[trigger] ks[j])
                == members(s, key, ks[j]) by {
                assert(ks.contains(ks[j]));
            }
        }
    }
}

pub proof fn lemma_kept<T>(s: Seq<T>, keep: spec_fn(T) -> bool)
    ensures
        kept(s, keep).len() <= s.len(),
        forall|i: int|
            0 <= i < kept(s, keep).len() ==> keep(#[trigger] kept(s, keep)[i]) && s.contains(
                kept(s, keep)[i],
            ),
        forall|t: T| s.contains(t) && keep(t) ==> kept(s, keep).contains(t),
    decreases s.len(),
{
    if s.len() > 0 {
        let b = s.drop_last();
        lemma_kept(b, keep);
        assert(s =~= b.push(s.last()));
        assert forall|i: int| 0 <= i < kept(s, keep).len() implies keep(#[trigger] kept(s, keep)[i])
            && s.contains(kept(s, keep)[i]) by {
            if i < kept(b, keep).len() {
                assert(b.contains(kept(b, keep)[i]));
                let j = choose|j: int| 0 <= j < b.len() && b[j] == kept(b, keep)[i];
                assert(s[j] == kept(s, keep)[i]);
            } else {
                assert(s[s.len() - 1] == kept(s, keep)[i]);
            }
        }
        assert forall|t: T| s.contains(t) && keep(t) implies kept(s, keep).contains(t) by {
            let j = choose|j: int| 0 <= j < s.len() && s[j] == t;
            if j < b.len() {
                assert(b[j] == t);
                assert(b.contains(t));
                assert(kept(b, keep).contains(t));
                let m = choose|m: int| 0 <= m < kept(b, keep).len() && kept(b, keep)[m] == t;
                assert(kept(s, keep)[m] == t);
            } else {
                assert(kept(s, keep)[kept(s, keep).len() - 1] == t);
            }
        }
    }
}

/// Selecting keeps items apart that were apart.
pub proof fn lemma_kept_distinct<T, K>(s: Seq<T>, keep: spec_fn(T) -> bool, key: spec_fn(T) -> K)
    requires
        s.map_values(key).no_duplicates(),
    ensures
        kept(s, keep).map_values(key).no_duplicates(),
    decreases s.len(),
{
    if s.len() > 0 {
        let b = s.drop_last();
        assert(forall|i: int, j: int|
            0 <= i < j < b.len() ==> b.map_values(key)[i] == s.map_values(key)[i] && b.map_values(
                key,
            )[j] == s.map_values(key)[j]);
        lemma_kept_distinct(b, keep, key);
        lemma_kept(b, keep);
        if keep(s.last()) {
            let ks = kept(s, keep).map_values(key);
            let kb = kept(b, keep).map_values(key);
            assert forall|i: int, j: int| 0 <= i < j < ks.len() implies ks[i] != ks[j] by {
                if j < kb.len() {
                    assert(kb[i] == ks[i] && kb[j] == ks[j]);
                } else {
                    assert(b.contains(kept(b, keep)[i]));
                    let m = choose|m: int| 0 <= m < b.len() && b[m] == kept(b, keep)[i];
                    assert(s.map_values(key)[m] == ks[i]);
                    assert(s.map_values(key)[s.len() - 1] == ks[j]);
                }
            }
        }
    }
}

/// A sum of amounts that are not negative is not negative.
pub proof fn lemma_sum_nonneg<T>(s: Seq<T>, amount: spec_fn(T) -> int)
    requires
        forall|i: int| 0 <= i < s.len() ==> amount(#[trigger] s[i]) >= 0,
    ensures
        sum_of(s, amount) >= 0,
    decreases s.len(),
{
    if s.len() > 0 {
        assert(forall|i: int| 0 <= i < s.drop_last().len() ==> s.drop_last()[i] == s[i]);
        lemma_sum_nonneg(s.drop_last(), amount);
        assert(amount(s[s.len() - 1]) >= 0);
    }
}

/// The members of a group amount to no more than all items.
pub proof fn lemma_members_sum<T, K>(
    s: Seq<T>,
    key: spec_fn(T) -> K,
    k: K,
    amount: spec_fn(T) -> int,
)
    requires
        forall|i: int| 0 <= i < s.len() ==> amount(#[trigger] s[i]) >= 0,
    ensures
        0 <= sum_of(members(s, key, k), amount) <= sum_of(s, amount),
    decreases s.len(),
{
    if s.len() > 0 {
        let b = s.drop_last();
        assert(forall|i: int| 0 <= i < b.len() ==> b[i] == s[i]);
        lemma_members_sum(b, key, k, amount);
        assert(amount(s[s.len() - 1]) >= 0);
        assert(members(b, key, k).push(s.last()).drop_last() =~= members(b, key, k));
    }
}

/// The items kept amount to no more than all items.
pub proof fn lemma_kept_sum<T>(s: Seq<T>, keep: spec_fn(T) -> bool, amount: spec_fn(T) -> int)
    requires
        forall|i: int| 0 <= i < s.len() ==> amount(#[trigger] s[i]) >= 0,
    ensures
        0 <= sum_of(kept(s, keep), amount) <= sum_of(s, amount),
    decreases s.len(),
{
    if s.len() > 0 {
        let b = s.drop_last();
        assert(forall|i: int| 0 <= i < b.len() ==> b[i] == s[i]);
        lemma_kept_sum(b, keep, amount);
        assert(amount(s[s.len() - 1]) >= 0);
        assert(kept(b, keep).push(s.last()).drop_last() =~= kept(b, keep));
    }
}

/// How many items at the front are later than `t`.
pub open spec fn slot<T>(s: Seq<T>, seen: spec_fn(T) -> Timestamp, t: Timestamp) -> int
    decreases s.len(),
{
    if s.len() == 0 || !t.before(seen(s[0])) {
        0
    } else {
        1 + slot(s.drop_first(), seen, t)
    }
}

/// The items from the latest to the earliest; of items equally late the one that came first
/// stays first.
pub open spec fn by_recency<T>(s: Seq<T>, seen: spec_fn(T) -> Timestamp) -> Seq<T>
    decreases s.len(),
{
    if s.len() == 0 {
        Seq::empty()
    } else {
        let rest = by_recency(s.drop_first(), seen);
        rest.insert(slot(rest, seen, seen(s[0])), s[0])
    }
}

pub proof fn lemma_slot<T>(s: Seq<T>, seen: spec_fn(T) -> Timestamp, t: Timestamp)
    ensures
        0 <= slot(s, seen, t) <= s.len(),
        forall|i: int| 0 <= i < slot(s, seen, t) ==> t.before(seen(#[trigger] s[i])),
        slot(s, seen, t) < s.len() ==> !t.before(seen(s[slot(s, seen, t)])),
    decreases s.len(),
{
    if s.len() > 0 && t.before(seen(s[0])) {
        let r = s.drop_first();
        lemma_slot(r, seen, t);
        assert forall|i: int| 0 <= i < slot(s, seen, t) implies t.before(seen(#[trigger] s[i])) by {
            if i > 0 {
                assert(r[i - 1] == s[i]);
            }
        }
    }
}

/// The slot is found by counting from the front.
pub proof fn lemma_slot_is<T>(s: Seq<T>, seen: spec_fn(T) -> Timestamp, t: Timestamp, n: int)
    requires
        0 <= n <= s.len(),
        forall|i: int| 0 <= i < n ==> t.before(seen(#[trigger] s[i])),
        n < s.len() ==> !t.before(seen(s[n])),
    ensures
        slot(s, seen, t) == n,
    decreases s.len(),
{
    lemma_slot(s, seen, t);
    let m = slot(s, seen, t);
    if m < n {
        assert(t.before(seen(s[m])));
    } else if n < m {
        assert(t.before(seen(s[n])));
    }
}

/// Sorting by recency is a rearrangement, and no item comes before a later one.
pub proof fn law_by_recency_sorts<T>(s: Seq<T>, seen: spec_fn(T) -> Timestamp)
    ensures
        by_recency(s, seen).to_multiset() == s.to_multiset(),
        by_recency(s, seen).len() == s.len(),
        forall|i: int, j: int|
            0 <= i < j < s.len() ==> !seen(#[trigger] by_recency(s, seen)[i]).before(
                seen(#[trigger] by_recency(s, seen)[j]),
            ),
    decreases s.len(),
{
    broadcast use vstd::seq_lib::group_to_multiset_ensures;

    if s.len() == 0 {
        assert(by_recency(s, seen) =~= s);
    } else {
        let tail = s.drop_first();
        let rest = by_recency(tail, seen);
        law_by_recency_sorts(tail, seen);
        lemma_slot(rest, seen, seen(s[0]));
        let n = slot(rest, seen, seen(s[0]));
        let r = rest.insert(n, s[0]);
        assert(s.remove(0) =~= tail);
        assert(r.remove(n) =~= rest);
        assert(s.contains(s[0]) && r.contains(r[n]));
        assert(s.to_multiset() =~= s.to_multiset().remove(s[0]).insert(s[0]));
        assert(r.to_multiset() =~= r.to_multiset().remove(s[0]).insert(s[0]));
        assert(r.to_multiset() =~= s.to_multiset());
        assert forall|i: int, j: int| 0 <= i < j < s.len() implies !seen(#[trigger] r[i]).before(
            seen(#[trigger] r[j]),
        ) by {
            let a = if i < n {
                rest[i]
            } else if i == n {
                s[0]
            } else {
                rest[i - 1]
            };
            if i == n {
                assert(r[j] == rest[j - 1]);
                if j - 1 > n {
                    assert(!seen(rest[n]).before(seen(rest[j - 1])));
                }
            } else if j == n {
                assert(r[i] == rest[i]);
            }
        }
    }
}

/// Sorting the views is viewing the sorted.
pub proof fn lemma_by_recency_views<T: View>(
    s: Seq<T>,
    seen: spec_fn(T) -> Timestamp,
    view_seen: spec_fn(T::V) -> Timestamp,
)
    requires
        forall|t: T| view_seen(#[trigger] t@) == seen(t),
    ensures
        views(by_recency(s, seen)) == by_recency(views(s), view_seen),
    decreases s.len(),
{
    if s.len() == 0 {
        assert(views(by_recency(s, seen)) =~= by_recency(views(s), view_seen));
    } else {
        let tail = s.drop_first();
        let rest = by_recency(tail, seen);
        lemma_by_recency_views(tail, seen, view_seen);
        assert(views(s).drop_first() =~= views(tail));
        lemma_slot(rest, seen, seen(s[0]));
        let n = slot(rest, seen, seen(s[0]));
        assert forall|i: int| 0 <= i < n implies seen(s[0]).before(
            view_seen(#[trigger] views(rest)[i]),
        ) by {
            assert(seen(s[0]).before(seen(rest[i])));
        }
        lemma_slot_is(views(rest), view_seen, seen(s[0]), n);
        assert(views(rest.insert(n, s[0])) =~= views(rest).insert(n, s[0]@));
    }
}

/// A thing that was last seen at some instant.
pub trait LastSeen: Sized {
    spec fn seen(self) -> Timestamp;

    fn last_seen(&self) -> (r: Timestamp)
        ensures
            r == self.seen(),
    ;
}

/// The instants at which things were last seen.
pub open spec fn seen_by<T: LastSeen>() -> spec_fn(T) -> Timestamp {
    |t: T| t.seen()
}

/// Sorts from the latest to the earliest, keeping the order of items equally late.
pub fn sort_by_recency<T: LastSeen>(items: Vec<T>) -> (r: Vec<T>)
    ensures
        r@ == by_recency(items@, seen_by::<T>()),
{
    let ghost all = items@;
    let ghost seen = seen_by::<T>();
    let mut items = items;
    let mut out: Vec<T> = Vec::new();
    assert(all.subrange(all.len() as int, all.len() as int) =~= Seq::empty());
    while items.len() > 0
        invariant
            seen == seen_by::<T>(),
            items.len() <= all.len(),
            items@ == all.take(items.len() as int),
            out@ == by_recency(all.subrange(items.len() as int, all.len() as int), seen),
            out.len() == all.len() - items.len(),
        decreases items.len(),
    {
        let ghost n = items.len();
        let ghost tail = all.subrange(n as int, all.len() as int);
        let ghost longer = all.subrange(n - 1, all.len() as int);
        let item = items.pop().unwrap();
        assert(item == all[n - 1]);
        assert(longer.drop_first() =~= tail);
        let at = item.last_seen();
        let mut pos: usize = 0;
        while pos < out.len() && at.is_before(&out[pos].last_seen())
            invariant
                seen == seen_by::<T>(),
                pos <= out.len(),
                at == item.seen(),
                forall|i: int| 0 <= i < pos ==> at.before(seen(#[trigger] out@[i])),
            decreases out.len() - pos,
        {
            pos += 1;
        }
        proof {
            lemma_slot_is(out@, seen, at, pos as int);
        }
        out.insert(pos, item);
        assert(items@ =~= all.take(items.len() as int));
    }
    assert(all.subrange(0, all.len() as int) =~= all);
    out
}

} // verus!
