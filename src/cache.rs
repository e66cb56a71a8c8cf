use vstd::prelude::*;
use std::collections::hash_map::RandomState;
use std::hash::{BuildHasher, Hash};
use lru_cache::LruCache;
use crate::assoc::{Assoc, has_key, key_pos, assoc_get, keys_unique, lemma_key_pos};
use crate::properties::Properties;
use crate::value::ValueView;

verus! {

/// lru-cache's `LruCache`, held opaque: what it holds is named by
/// `lru_entries` and `lru_capacity`.
#[verifier::external_type_specification]
#[verifier::external_body]
#[verifier::reject_recursive_types(K)]
#[verifier::reject_recursive_types(V)]
#[verifier::reject_recursive_types(S)]
pub struct ExLruCache<K: Eq + Hash, V, S: BuildHasher = RandomState>(LruCache<K, V, S>);

/// What a cache holds: fingerprint and property map, least recently used
/// first.
pub type CacheView = Assoc<Assoc<ValueView>>;

/// The entries of an LRU cache, least recently used first.
pub uninterp spec fn lru_entries(c: LruCache<String, Properties>) -> CacheView;

/// The capacity an LRU cache was made with.
pub uninterp spec fn lru_capacity(c: LruCache<String, Properties>) -> nat;

/// `s` after a use of `k`: a present key becomes the most recently used.
pub open spec fn lru_touch<V>(s: Assoc<V>, k: Seq<char>) -> Assoc<V> {
    if has_key(s, k) {
        s.remove(key_pos(s, k)).push(s[key_pos(s, k)])
    } else {
        s
    }
}

/// `s` after binding `k` to `v` in a cache of capacity `cap`: the binding
/// becomes the most recently used, and the least recently used entry leaves
/// when there are more than `cap`.
pub open spec fn lru_put<V>(s: Assoc<V>, cap: nat, k: Seq<char>, v: V) -> Assoc<V> {
    let t = if has_key(s, k) {
        s.remove(key_pos(s, k)).push((k, v))
    } else {
        s.push((k, v))
    };
    if t.len() > cap {
        t.drop_first()
    } else {
        t
    }
}

/// The cache after binding each of `items` in turn, from empty, with
/// capacity `cap`.
pub open spec fn lru_fill<V>(items: Assoc<V>, cap: nat) -> Assoc<V>
    decreases items.len(),
{
    if items.len() == 0 {
        Seq::empty()
    } else {
        lru_put(lru_fill(items.drop_last(), cap), cap, items.last().0, items.last().1)
    }
}

/// A use keeps the keys unique and the entries as they were, reordered.
pub proof fn lemma_touch_keeps(s: Assoc<Assoc<ValueView>>, k: Seq<char>)
    requires
        keys_unique(s),
    ensures
        keys_unique(lru_touch(s, k)),
        lru_touch(s, k).len() == s.len(),
        forall|i: int| 0 <= i < s.len() ==> s.contains(#[trigger] lru_touch(s, k)[i]),
{
    if has_key(s, k) {
        let p = key_pos(s, k);
        let r = lru_touch(s, k);
        assert forall|i: int| 0 <= i < s.len() implies s.contains(#[trigger] r[i]) by {
            if i < p {
                assert(r[i] == s[i]);
            } else if i < s.len() - 1 {
                assert(r[i] == s[i + 1]);
            } else {
                assert(r[i] == s[p]);
            }
        }
        assert forall|i: int, j: int| 0 <= i < j < r.len() implies #[trigger] r[i].0 != #[trigger] r[j].0 by {
            let si = if i < p { i } else if i < s.len() - 1 { i + 1 } else { p };
            let sj = if j < p { j } else if j < s.len() - 1 { j + 1 } else { p };
            assert(r[i] == s[si]);
            assert(r[j] == s[sj]);
            assert(si != sj);
            if si < sj {
                assert(s[si].0 != s[sj].0);
            } else {
                assert(s[sj].0 != s[si].0);
            }
        }
    }
}

/// A binding keeps the keys unique and the size within the capacity, and
/// each entry afterwards is the new binding or one that was there.
pub proof fn lemma_put_keeps<V>(s: Assoc<V>, cap: nat, k: Seq<char>, v: V)
    requires
        keys_unique(s),
        s.len() <= cap,
    ensures
        keys_unique(lru_put(s, cap, k, v)),
        lru_put(s, cap, k, v).len() <= cap,
        forall|i: int| 0 <= i < lru_put(s, cap, k, v).len() ==>
            (#[trigger] lru_put(s, cap, k, v)[i] == (k, v) || s.contains(lru_put(s, cap, k, v)[i])),
{
    let t = if has_key(s, k) {
        s.remove(key_pos(s, k)).push((k, v))
    } else {
        s.push((k, v))
    };
    let r = lru_put(s, cap, k, v);
    let d: int = if t.len() > cap { 1 } else { 0 };
    let p = key_pos(s, k);
    let present = has_key(s, k);
    // where t's i-th entry came from in s, if not the new binding
    assert forall|i: int| 0 <= i < t.len() - 1 implies #[trigger] t[i] == s[if present && i >= p { i + 1 } else { i }] by {
    }
    assert(t[t.len() - 1] == (k, v));
    assert forall|i: int| 0 <= i < r.len() implies (#[trigger] r[i] == (k, v) || s.contains(r[i])) by {
        assert(r[i] == t[i + d]);
        if i + d < t.len() - 1 {
            let si = if present && i + d >= p { i + d + 1 } else { i + d };
            assert(t[i + d] == s[si]);
        }
    }
    assert forall|i: int, j: int| 0 <= i < j < t.len() implies #[trigger] t[i].0 != #[trigger] t[j].0 by {
        let si = if present && i >= p { i + 1 } else { i };
        assert(t[i] == s[si]);
        if j < t.len() - 1 {
            let sj = if present && j >= p { j + 1 } else { j };
            assert(t[j] == s[sj]);
            assert(s[si].0 != s[sj].0);
        } else {
            if s[si].0 == k {
                assert(has_key(s, k));
                lemma_key_pos(s, si);
            }
        }
    }
    assert forall|i: int, j: int| 0 <= i < j < r.len() implies #[trigger] r[i].0 != #[trigger] r[j].0 by {
        assert(r[i] == t[i + d]);
        assert(r[j] == t[j + d]);
    }
}

/// Once a binding is made in a cache of positive capacity, looking up its
/// key finds the value just bound.
pub proof fn lemma_put_then_get<V>(s: Assoc<V>, cap: nat, k: Seq<char>, v: V)
    requires
        keys_unique(s),
        s.len() <= cap,
        cap > 0,
    ensures
        has_key(lru_put(s, cap, k, v), k),
        assoc_get(lru_put(s, cap, k, v), k) == Some(v),
{
    lemma_put_keeps(s, cap, k, v);
    let r = lru_put(s, cap, k, v);
    assert(r[r.len() - 1] == (k, v));
    lemma_key_pos(r, r.len() - 1);
}

proof fn lemma_fill_window<V>(items: Assoc<V>, cap: nat)
    requires
        keys_unique(items),
    ensures
        lru_fill(items, cap) == items.subrange(
            items.len() - (if items.len() < cap { items.len() as int } else { cap as int }),
            items.len() as int,
        ),
    decreases items.len(),
{
    let n = items.len() as int;
    if n > 0 {
        let prev = items.drop_last();
        assert(keys_unique(prev));
        lemma_fill_window(prev, cap);
        let m1: int = if n - 1 < cap { n - 1 } else { cap as int };
        let s = lru_fill(prev, cap);
        assert(s == items.subrange(n - 1 - m1, n - 1));
        let k = items.last().0;
        if has_key(s, k) {
            let j = choose|j: int| 0 <= j < s.len() && #[trigger] s[j].0 == k;
            assert(s[j] == items[n - 1 - m1 + j]);
            assert(items[n - 1 - m1 + j].0 != items[n - 1].0);
        }
        let t = s.push(items.last());
        assert(t =~= items.subrange(n - 1 - m1, n));
        if t.len() > cap {
            assert(t.drop_first() =~= items.subrange(n - cap, n));
        }
    } else {
        assert(items.subrange(0, 0) =~= Seq::<(Seq<char>, V)>::empty());
    }
}

/// Binding more distinct keys than the capacity, from empty, leaves exactly
/// `cap` entries: the last `cap` bindings, in order; the earlier keys are
/// all gone.
pub proof fn lemma_lru_capacity<V>(items: Assoc<V>, cap: nat)
    requires
        keys_unique(items),
        items.len() > cap,
    ensures
        lru_fill(items, cap).len() == cap,
        lru_fill(items, cap) == items.subrange(items.len() - cap, items.len() as int),
        forall|i: int| 0 <= i < items.len() - cap ==> !has_key(lru_fill(items, cap), #[trigger] items[i].0),
        forall|i: int| items.len() - cap <= i < items.len() ==> has_key(lru_fill(items, cap), #[trigger] items[i].0),
{
    lemma_fill_window(items, cap);
    let r = lru_fill(items, cap);
    let b = items.len() - cap;
    assert forall|i: int| 0 <= i < b implies !has_key(r, #[trigger] items[i].0) by {
        if has_key(r, items[i].0) {
            let j = choose|j: int| 0 <= j < r.len() && #[trigger] r[j].0 == items[i].0;
            assert(r[j] == items[b + j]);
        }
    }
    assert forall|i: int| b <= i < items.len() implies has_key(r, #[trigger] items[i].0) by {
        assert(r[i - b] == items[i]);
    }
}

/// Relies on `LruCache::new`: an empty cache of the given capacity.
#[verifier::external_body]
pub(crate) fn lru_new(capacity: usize) -> (r: LruCache<String, Properties>)
    ensures
        lru_entries(r) == Seq::<(Seq<char>, Assoc<ValueView>)>::empty(),
        lru_capacity(r) == capacity,
{
    LruCache::new(capacity)
}

/// Relies on `LruCache::get_mut`: the value under `k`, if any, which
/// becomes the most recently used.
#[verifier::external_body]
pub(crate) fn lru_get<'a>(c: &'a mut LruCache<String, Properties>, k: &String) -> (r: Option<
    &'a Properties,
>)
    ensures
        r is None <==> !has_key(lru_entries(*old(c)), k@),
        r matches Some(p) ==> assoc_get(lru_entries(*old(c)), k@) == Some(p@),
        lru_entries(*final(c)) == lru_touch(lru_entries(*old(c)), k@),
        lru_capacity(*final(c)) == lru_capacity(*old(c)),
{
    match c.get_mut(k) {
        Some(p) => Some(p),
        None => None,
    }
}

/// Relies on `LruCache::insert`: the binding becomes the most recently used
/// and the least recently used entry leaves once there are more than the
/// capacity.
#[verifier::external_body]
pub(crate) fn lru_insert(c: &mut LruCache<String, Properties>, k: String, v: Properties)
    ensures
        lru_entries(*final(c)) == lru_put(lru_entries(*old(c)), lru_capacity(*old(c)), k@, v@),
        lru_capacity(*final(c)) == lru_capacity(*old(c)),
{
    c.insert(k, v);
}

} // verus!
