//! The mathematical model of an insertion-ordered map and of an
//! insertion-ordered set.
//!
//! An ordered map is a sequence of `(key, value)` pairs whose keys are
//! pairwise distinct; an ordered set is a sequence without duplicates. The
//! position of an entry is the order in which iteration yields it.
use vstd::prelude::*;

verus! {

/// `k` is the key of some entry of `s`.
pub open spec fn has_key<K, V>(s: Seq<(K, V)>, k: K) -> bool {
    exists|i: int| 0 <= i < s.len() && (#[trigger] s[i]).0 == k
}

/// A position at which `k` is stored (the position, when keys are distinct).
pub open spec fn key_pos<K, V>(s: Seq<(K, V)>, k: K) -> int {
    choose|i: int| 0 <= i < s.len() && (#[trigger] s[i]).0 == k
}

/// The value stored under `k`; arbitrary when `k` is absent.
pub open spec fn value_at<K, V>(s: Seq<(K, V)>, k: K) -> V {
    s[key_pos(s, k)].1
}

/// The value stored under `k`, if any.
pub open spec fn lookup<K, V>(s: Seq<(K, V)>, k: K) -> Option<V> {
    if has_key(s, k) {
        Some(value_at(s, k))
    } else {
        None
    }
}

/// No key is stored twice.
pub open spec fn keys_distinct<K, V>(s: Seq<(K, V)>) -> bool {
    forall|i: int, j: int| 0 <= i < j < s.len() ==> (#[trigger] s[i]).0 != (#[trigger] s[j]).0
}

/// Stores `v` under `k`: in place when `k` is present, last in order otherwise.
pub open spec fn put<K, V>(s: Seq<(K, V)>, k: K, v: V) -> Seq<(K, V)> {
    if has_key(s, k) {
        s.update(key_pos(s, k), (k, v))
    } else {
        s.push((k, v))
    }
}

/// Removes the entry of `k`, keeping the relative order of the others.
pub open spec fn del<K, V>(s: Seq<(K, V)>, k: K) -> Seq<(K, V)> {
    if has_key(s, k) {
        s.remove(key_pos(s, k))
    } else {
        s
    }
}

/// The finite map that the entries of `s` define.
pub open spec fn as_map<K, V>(s: Seq<(K, V)>) -> Map<K, V> {
    Map::new(|k: K| has_key(s, k), |k: K| value_at(s, k))
}

/// Adds `x` to an ordered set: last in order when it is new.
pub open spec fn with_item<T>(s: Seq<T>, x: T) -> Seq<T> {
    if s.contains(x) {
        s
    } else {
        s.push(x)
    }
}

/// Removes `x` from an ordered set, keeping the relative order of the others.
pub open spec fn without_item<T>(s: Seq<T>, x: T) -> Seq<T> {
    if s.contains(x) {
        s.remove(s.index_of(x))
    } else {
        s
    }
}

/// With distinct keys, the entry at a position is the entry of its key.
pub proof fn lemma_entry<K, V>(s: Seq<(K, V)>, i: int)
    requires
        keys_distinct(s),
        0 <= i < s.len(),
    ensures
        has_key(s, s[i].0),
        key_pos(s, s[i].0) == i,
        value_at(s, s[i].0) == s[i].1,
        lookup(s, s[i].0) == Some(s[i].1),
        as_map(s).dom().contains(s[i].0),
        as_map(s)[s[i].0] == s[i].1,
{
    let k = s[i].0;
    assert(has_key(s, k));
    let p = key_pos(s, k);
    if p < i {
        assert(s[p].0 != s[i].0);
    } else if i < p {
        assert(s[i].0 != s[p].0);
    }
}

/// The empty sequence is the empty map.
pub proof fn lemma_empty<K, V>()
    ensures
        keys_distinct(Seq::<(K, V)>::empty()),
        as_map(Seq::<(K, V)>::empty()) == Map::<K, V>::empty(),
        forall|k: K| !has_key(Seq::<(K, V)>::empty(), k),
{
    assert(as_map(Seq::<(K, V)>::empty()) =~= Map::<K, V>::empty());
}

/// `put` is the insertion of a finite map, and keeps keys distinct.
pub proof fn lemma_put<K, V>(s: Seq<(K, V)>, k: K, v: V)
    requires
        keys_distinct(s),
    ensures
        keys_distinct(put(s, k, v)),
        as_map(put(s, k, v)) == as_map(s).insert(k, v),
        has_key(put(s, k, v), k),
        value_at(put(s, k, v), k) == v,
        forall|q: K| q != k ==> has_key(put(s, k, v), q) == has_key(s, q),
        forall|q: K| q != k ==> lookup(put(s, k, v), q) == lookup(s, q),
        put(s, k, v).len() == if has_key(s, k) { s.len() } else { s.len() + 1 },
{
    let t = put(s, k, v);
    let p = if has_key(s, k) { key_pos(s, k) } else { s.len() as int };
    assert(t[p] == (k, v));
    assert(forall|i: int| 0 <= i < s.len() && i != p ==> t[i] == s[i]);
    assert(forall|i: int| 0 <= i < t.len() ==> ((#[trigger] t[i]).0 == k <==> i == p)) by {
        assert forall|i: int| 0 <= i < t.len() && i != p implies (#[trigger] t[i]).0 != k by {
            if has_key(s, k) {
                lemma_entry(s, i);
            } else {
                assert(t[i] == s[i]);
            }
        }
    }
    assert(keys_distinct(t)) by {
        assert forall|i: int, j: int| 0 <= i < j < t.len() implies (#[trigger] t[i]).0 != (
        #[trigger] t[j]).0 by {
            if i != p && j != p {
                assert(s[i].0 != s[j].0);
            }
        }
    }
    lemma_entry(t, p);
    assert forall|q: K| q != k implies has_key(t, q) == has_key(s, q) && lookup(t, q) == lookup(
        s,
        q,
    ) by {
        if has_key(s, q) {
            let i = key_pos(s, q);
            assert(t[i] == s[i]);
            lemma_entry(t, i);
            lemma_entry(s, i);
        }
        if has_key(t, q) {
            let i = key_pos(t, q);
            assert(t[i] == s[i]);
            lemma_entry(t, i);
            lemma_entry(s, i);
        }
    }
    assert(as_map(t) =~= as_map(s).insert(k, v));
}

/// `del` is the removal of a finite map, and keeps keys distinct.
pub proof fn lemma_del<K, V>(s: Seq<(K, V)>, k: K)
    requires
        keys_distinct(s),
    ensures
        keys_distinct(del(s, k)),
        as_map(del(s, k)) == as_map(s).remove(k),
        !has_key(del(s, k), k),
        forall|q: K| q != k ==> has_key(del(s, k), q) == has_key(s, q),
        forall|q: K| q != k ==> lookup(del(s, k), q) == lookup(s, q),
        del(s, k).len() == if has_key(s, k) { s.len() - 1 } else { s.len() as int },
{
    let t = del(s, k);
    if has_key(s, k) {
        let p = key_pos(s, k);
        assert(forall|i: int| 0 <= i < p ==> t[i] == s[i]);
        assert(forall|i: int| p <= i < t.len() ==> t[i] == s[i + 1]);
        assert(keys_distinct(t)) by {
            assert forall|i: int, j: int| 0 <= i < j < t.len() implies (#[trigger] t[i]).0 != (
            #[trigger] t[j]).0 by {
                let a = if i < p { i } else { i + 1 };
                let b = if j < p { j } else { j + 1 };
                assert(s[a].0 != s[b].0);
            }
        }
        assert(!has_key(t, k)) by {
            if has_key(t, k) {
                let i = key_pos(t, k);
                let a = if i < p { i } else { i + 1 };
                assert(t[i] == s[a]);
                lemma_entry(s, a);
            }
        }
        assert forall|q: K| q != k implies has_key(t, q) == has_key(s, q) && lookup(t, q)
            == lookup(s, q) by {
            if has_key(s, q) {
                let a = key_pos(s, q);
                let i = if a < p { a } else { a - 1 };
                assert(t[i] == s[a]);
                lemma_entry(t, i);
                lemma_entry(s, a);
            }
            if has_key(t, q) {
                let i = key_pos(t, q);
                let a = if i < p { i } else { i + 1 };
                assert(t[i] == s[a]);
                lemma_entry(t, i);
                lemma_entry(s, a);
            }
        }
    }
    assert(as_map(t) =~= as_map(s).remove(k));
}

/// Appending an entry under a new key is `put`.
pub proof fn lemma_push<K, V>(s: Seq<(K, V)>, k: K, v: V)
    requires
        keys_distinct(s),
        !has_key(s, k),
    ensures
        s.push((k, v)) == put(s, k, v),
        del(s.push((k, v)), k) == s,
{
    let t = s.push((k, v));
    lemma_put(s, k, v);
    lemma_entry(t, s.len() as int);
    assert(t.remove(s.len() as int) =~= s);
}

/// Storing again what is stored changes nothing.
pub proof fn lemma_put_same<K, V>(s: Seq<(K, V)>, k: K)
    requires
        has_key(s, k),
    ensures
        put(s, k, value_at(s, k)) == s,
{
    assert(put(s, k, value_at(s, k)) =~= s);
}

/// A later `put` under the same key overrides an earlier one.
pub proof fn lemma_put_put<K, V>(s: Seq<(K, V)>, k: K, v: V, w: V)
    requires
        keys_distinct(s),
    ensures
        put(put(s, k, v), k, w) == put(s, k, w),
{
    let t = put(s, k, v);
    lemma_put(s, k, v);
    let p = if has_key(s, k) { key_pos(s, k) } else { s.len() as int };
    lemma_entry(t, p);
    assert(put(t, k, w) =~= put(s, k, w));
}

/// Overwriting a present key and then restoring its value changes nothing.
pub proof fn lemma_put_restore<K, V>(s: Seq<(K, V)>, k: K, v: V)
    requires
        keys_distinct(s),
        has_key(s, k),
    ensures
        put(put(s, k, v), k, value_at(s, k)) == s,
{
    lemma_put_put(s, k, v, value_at(s, k));
    lemma_put_same(s, k);
}

/// Removing a key forgets what was stored under it.
pub proof fn lemma_put_del<K, V>(s: Seq<(K, V)>, k: K, v: V)
    requires
        keys_distinct(s),
        has_key(s, k),
    ensures
        del(put(s, k, v), k) == del(s, k),
{
    let t = put(s, k, v);
    lemma_put(s, k, v);
    lemma_entry(t, key_pos(s, k));
    assert(t.remove(key_pos(s, k)) =~= s.remove(key_pos(s, k)));
}

/// Operations on different keys commute.
pub proof fn lemma_put_put_commute<K, V>(s: Seq<(K, V)>, k1: K, v1: V, k2: K, v2: V)
    requires
        keys_distinct(s),
        k1 != k2,
        has_key(s, k1),
    ensures
        put(put(s, k1, v1), k2, v2) == put(put(s, k2, v2), k1, v1),
{
    lemma_put(s, k1, v1);
    lemma_put(s, k2, v2);
    let at1 = key_pos(s, k1);
    let a = put(s, k1, v1);
    let b = put(s, k2, v2);
    assert(b[at1] == s[at1]);
    lemma_entry(b, at1);
    lemma_entry(a, at1);
    if has_key(s, k2) {
        let at2 = key_pos(s, k2);
        assert(a[at2] == s[at2]);
        lemma_entry(a, at2);
    }
    assert(put(a, k2, v2) =~= put(b, k1, v1));
}

/// Storing under one key and removing another commute.
pub proof fn lemma_put_del_commute<K, V>(s: Seq<(K, V)>, k1: K, v1: V, k2: K)
    requires
        keys_distinct(s),
        k1 != k2,
    ensures
        del(put(s, k1, v1), k2) == put(del(s, k2), k1, v1),
{
    lemma_put(s, k1, v1);
    lemma_del(s, k2);
    let a = put(s, k1, v1);
    let b = del(s, k2);
    if has_key(s, k2) {
        let at2 = key_pos(s, k2);
        assert(a[at2] == s[at2]);
        lemma_entry(a, at2);
        if has_key(s, k1) {
            let at1 = key_pos(s, k1);
            let to1 = if at1 < at2 { at1 } else { at1 - 1 };
            assert(b[to1] == s[at1]);
            lemma_entry(b, to1);
        }
    } else {
        if has_key(s, k1) {
        }
    }
    assert(del(a, k2) =~= put(b, k1, v1));
}

/// `with_item` is the insertion of a set, and keeps items distinct.
pub proof fn lemma_with_item<T>(s: Seq<T>, x: T)
    requires
        s.no_duplicates(),
    ensures
        with_item(s, x).no_duplicates(),
        with_item(s, x).contains(x),
        forall|y: T| with_item(s, x).contains(y) <==> (y == x || s.contains(y)),
        with_item(s, x).len() > 0,
        without_item(with_item(s, x), x) == if s.contains(x) { without_item(s, x) } else { s },
        with_item(with_item(s, x), x) == with_item(s, x),
{
    let t = with_item(s, x);
    if !s.contains(x) {
        assert(t[s.len() as int] == x);
        assert forall|y: T| t.contains(y) <==> (y == x || s.contains(y)) by {
            if s.contains(y) {
                let i = s.index_of(y);
                assert(t[i] == y);
            }
            if t.contains(y) && y != x {
                let i = t.index_of(y);
                assert(s[i] == y);
            }
        }
        assert(t.index_of(x) == s.len());
        assert(t.remove(s.len() as int) =~= s);
    } else {
        let i = s.index_of(x);
        assert(s[i] == x);
    }
}

/// `without_item` is the removal of a set, and keeps items distinct.
pub proof fn lemma_without_item<T>(s: Seq<T>, x: T)
    requires
        s.no_duplicates(),
    ensures
        without_item(s, x).no_duplicates(),
        !without_item(s, x).contains(x),
        forall|y: T| without_item(s, x).contains(y) <==> (y != x && s.contains(y)),
        without_item(s, x).len() == if s.contains(x) { s.len() - 1 } else { s.len() as int },
{
    let t = without_item(s, x);
    if s.contains(x) {
        let p = s.index_of(x);
        assert(forall|i: int| 0 <= i < p ==> t[i] == s[i]);
        assert(forall|i: int| p <= i < t.len() ==> t[i] == s[i + 1]);
        assert forall|y: T| t.contains(y) <==> (y != x && s.contains(y)) by {
            if t.contains(y) {
                let i = t.index_of(y);
                let a = if i < p { i } else { i + 1 };
                assert(t[i] == s[a]);
            }
            if y != x && s.contains(y) {
                let a = s.index_of(y);
                let i = if a < p { a } else { a - 1 };
                assert(t[i] == s[a]);
            }
        }
        assert forall|i: int, j: int|
            0 <= i < t.len() && 0 <= j < t.len() && i != j implies t[i] != t[j] by {
            let a = if i < p { i } else { i + 1 };
            let b = if j < p { j } else { j + 1 };
            assert(s[a] != s[b]);
        }
    }
}

/// A filter that every item passes changes nothing.
pub proof fn lemma_filter_all<T>(s: Seq<T>, pred: spec_fn(T) -> bool)
    requires
        forall|i: int| 0 <= i < s.len() ==> pred(#[trigger] s[i]),
    ensures
        s.filter(pred) == s,
    decreases s.len(),
{
    reveal(Seq::filter);
    if s.len() > 0 {
        assert forall|i: int| 0 <= i < s.drop_last().len() implies pred(
            #[trigger] s.drop_last()[i],
        ) by {
            assert(s.drop_last()[i] == s[i]);
        }
        lemma_filter_all(s.drop_last(), pred);
        assert(s.drop_last().push(s.last()) =~= s);
    }
}

/// Filtering one item more either appends it or changes nothing.
pub proof fn lemma_filter_step<T>(s: Seq<T>, pred: spec_fn(T) -> bool, n: int)
    requires
        0 <= n < s.len(),
    ensures
        s.take(n + 1).filter(pred) == if pred(s[n]) {
            s.take(n).filter(pred).push(s[n])
        } else {
            s.take(n).filter(pred)
        },
{
    reveal(Seq::filter);
    assert(s.take(n + 1).drop_last() == s.take(n));
}

/// Removing the first item of an ordered set leaves the rest.
pub proof fn lemma_without_first<T>(s: Seq<T>)
    requires
        s.no_duplicates(),
        s.len() > 0,
    ensures
        without_item(s, s[0]) == s.skip(1),
{
    assert(s.contains(s[0]));
    let p = s.index_of(s[0]);
    assert(p == 0);
    assert(s.remove(0) =~= s.skip(1));
}

} // verus!
