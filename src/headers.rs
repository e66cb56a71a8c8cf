use vstd::prelude::*;
use crate::assoc::{Assoc, keys_unique, has_key, assoc_get, assoc_put, lemma_key_pos, lemma_put_unique};

verus! {

/// The request headers a client carries: names are matched exactly as given
/// and each occurs once; iteration follows the order of first insertion.
pub struct Headers {
    entries: Vec<(String, String)>,
}

impl View for Headers {
    type V = Assoc<Seq<char>>;

    closed spec fn view(&self) -> Assoc<Seq<char>> {
        self.entries@.map_values(|e: (String, String)| (e.0@, e.1@))
    }
}

impl Headers {
    pub open spec fn wf(&self) -> bool {
        keys_unique(self@)
    }

    /// An empty store.
    pub fn new() -> (r: Headers)
        ensures
            r.wf(),
            r@ == Seq::<(Seq<char>, Seq<char>)>::empty(),
    {
        let r = Headers { entries: Vec::new() };
        assert(r@ =~= Seq::<(Seq<char>, Seq<char>)>::empty());
        r
    }

    /// The number of headers.
    pub fn len(&self) -> (r: usize)
        ensures
            r == self@.len(),
    {
        self.entries.len()
    }

    /// The `i`-th header, as (name, value).
    pub fn entry(&self, i: usize) -> (r: (&String, &String))
        requires
            i < self@.len(),
        ensures
            (r.0@, r.1@) == self@[i as int],
    {
        let e = &self.entries[i];
        (&e.0, &e.1)
    }

    /// The position of `k`, if present.
    fn find(&self, k: &str) -> (r: Option<usize>)
        requires
            self.wf(),
        ensures
            r is None ==> !has_key(self@, k@),
            r matches Some(i) ==> i < self@.len() && self@[i as int].0 == k@,
    {
        let key = String::from_str(k);
        let mut i: usize = 0;
        while i < self.entries.len()
            invariant
                i <= self.entries@.len(),
                key@ == k@,
                forall|j: int| 0 <= j < i ==> #[trigger] self@[j].0 != k@,
            decreases self.entries@.len() - i,
        {
            if self.entries[i].0 == key {
                return Some(i);
            }
            i = i + 1;
        }
        None
    }

    /// Whether a header named `k` is present.
    pub fn contains_key(&self, k: &str) -> (r: bool)
        requires
            self.wf(),
        ensures
            r == has_key(self@, k@),
    {
        self.find(k).is_some()
    }

    /// The value of the header named `k`.
    pub fn get(&self, k: &str) -> (r: Option<&String>)
        requires
            self.wf(),
        ensures
            r is None ==> assoc_get(self@, k@) is None,
            r matches Some(v) ==> assoc_get(self@, k@) == Some(v@),
    {
        match self.find(k) {
            Some(i) => {
                proof {
                    lemma_key_pos(self@, i as int);
                }
                Some(&self.entries[i].1)
            },
            None => None,
        }
    }

    /// Sets the header named `k` to `v`, keeping its place if it was present.
    pub fn insert(&mut self, k: String, v: String)
        requires
            old(self).wf(),
        ensures
            final(self).wf(),
            final(self)@ == assoc_put(old(self)@, k@, v@),
    {
        let ghost before = self@;
        proof {
            lemma_put_unique(before, k@, v@);
        }
        match self.find(k.as_str()) {
            Some(i) => {
                proof {
                    lemma_key_pos(before, i as int);
                }
                self.entries.set(i, (k, v));
                assert(self@ =~= assoc_put(before, k@, v@));
            },
            None => {
                self.entries.push((k, v));
                assert(self@ =~= assoc_put(before, k@, v@));
            },
        }
    }

    /// Removes every header.
    pub fn clear(&mut self)
        ensures
            final(self).wf(),
            final(self)@ == Seq::<(Seq<char>, Seq<char>)>::empty(),
    {
        self.entries.clear();
        assert(self@ =~= Seq::<(Seq<char>, Seq<char>)>::empty());
    }
}

/// Whether `a` and `b` hold the same headers, in any order: as many, and
/// each header of `a` is one of `b`. Where names are unique this is equality
/// of the two maps.
pub open spec fn same_bindings(a: Assoc<Seq<char>>, b: Assoc<Seq<char>>) -> bool {
    a.len() == b.len() && forall|i: int| 0 <= i < a.len() ==> b.contains(#[trigger] a[i])
}

impl Headers {
    /// Whether the header (`k`, `v`) is one of this store.
    fn holds(&self, k: &String, v: &String) -> (r: bool)
        ensures
            r == self@.contains((k@, v@)),
    {
        let mut j: usize = 0;
        while j < self.entries.len()
            invariant
                j <= self.entries@.len(),
                forall|m: int| 0 <= m < j ==> #[trigger] self@[m] != (k@, v@),
            decreases self.entries@.len() - j,
        {
            let e = &self.entries[j];
            if e.0 == *k && e.1 == *v {
                assert(self@[j as int] == (k@, v@));
                return true;
            }
            j = j + 1;
        }
        false
    }
}

/// Two stores are equal when they hold the same headers, whatever the order
/// in which they were set.
impl PartialEq for Headers {
    fn eq(&self, other: &Headers) -> (r: bool) {
        let n = self.entries.len();
        if n != other.entries.len() {
            return false;
        }
        let mut i: usize = 0;
        while i < n
            invariant
                n == self.entries@.len(),
                n == other.entries@.len(),
                i <= n,
                forall|j: int| 0 <= j < i ==> other@.contains(#[trigger] self@[j]),
            decreases n - i,
        {
            let a = &self.entries[i];
            if !other.holds(&a.0, &a.1) {
                assert(self@[i as int] == (a.0@, a.1@));
                return false;
            }
            i = i + 1;
        }
        true
    }
}

impl vstd::std_specs::cmp::PartialEqSpecImpl for Headers {
    open spec fn obeys_eq_spec() -> bool {
        true
    }

    open spec fn eq_spec(&self, other: &Headers) -> bool {
        same_bindings(self@, other@)
    }
}

} // verus!
