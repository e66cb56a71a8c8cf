use vstd::prelude::*;

verus! {

/// An association list: pairs from a name to a value, in the order in which
/// the names were first given.
pub type Assoc<V> = Seq<(Seq<char>, V)>;

pub open spec fn keys_unique<V>(s: Assoc<V>) -> bool {
    forall|i: int, j: int| 0 <= i < j < s.len() ==> #[trigger] s[i].0 != #[trigger] s[j].0
}

pub open spec fn has_key<V>(s: Assoc<V>, k: Seq<char>) -> bool {
    exists|i: int| 0 <= i < s.len() && #[trigger] s[i].0 == k
}

/// The position of `k` in `s`, where it has one.
pub open spec fn key_pos<V>(s: Assoc<V>, k: Seq<char>) -> int {
    choose|i: int| 0 <= i < s.len() && #[trigger] s[i].0 == k
}

/// The value under `k`.
pub open spec fn assoc_get<V>(s: Assoc<V>, k: Seq<char>) -> Option<V> {
    if has_key(s, k) {
        Some(s[key_pos(s, k)].1)
    } else {
        None
    }
}

/// `s` with `k` bound to `v`: a name already present keeps its place and
/// takes the new value, a new name goes last.
pub open spec fn assoc_put<V>(s: Assoc<V>, k: Seq<char>, v: V) -> Assoc<V> {
    if has_key(s, k) {
        s.update(key_pos(s, k), (k, v))
    } else {
        s.push((k, v))
    }
}

/// Where keys are unique, the position of a present key is the one found.
pub proof fn lemma_key_pos<V>(s: Assoc<V>, i: int)
    requires
        keys_unique(s),
        0 <= i < s.len(),
    ensures
        has_key(s, s[i].0),
        key_pos(s, s[i].0) == i,
        assoc_get(s, s[i].0) == Some(s[i].1),
{
    assert(has_key(s, s[i].0));
    let j = key_pos(s, s[i].0);
    if j < i {
        assert(s[j].0 != s[i].0);
    } else if i < j {
        assert(s[i].0 != s[j].0);
    }
}

/// Binding a name keeps the names unique.
pub proof fn lemma_put_unique<V>(s: Assoc<V>, k: Seq<char>, v: V)
    requires
        keys_unique(s),
    ensures
        keys_unique(assoc_put(s, k, v)),
        has_key(assoc_put(s, k, v), k),
        assoc_get(assoc_put(s, k, v), k) == Some(v),
{
    let r = assoc_put(s, k, v);
    if has_key(s, k) {
        let p = key_pos(s, k);
        assert forall|i: int, j: int| 0 <= i < j < r.len() implies #[trigger] r[i].0 != #[trigger] r[j].0 by {
            if i != p && j != p {
                assert(s[i].0 != s[j].0);
            } else if i == p {
                assert(s[p].0 != s[j].0);
            } else {
                assert(s[i].0 != s[p].0);
            }
        }
        lemma_key_pos(r, p);
    } else {
        assert forall|i: int, j: int| 0 <= i < j < r.len() implies #[trigger] r[i].0 != #[trigger] r[j].0 by {
            if j < s.len() {
                assert(s[i].0 != s[j].0);
            } else {
                assert(r[i] == s[i]);
            }
        }
        lemma_key_pos(r, s.len() as int);
    }
}

} // verus!
