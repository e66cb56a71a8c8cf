use vstd::prelude::*;
use crate::assoc::{Assoc, keys_unique, has_key, assoc_get, assoc_put, lemma_key_pos, lemma_put_unique};
use crate::value::{Value, ValueView, value_of};

verus! {

/// Whether every value's facets are those derived from its string.
pub open spec fn all_derived(s: Assoc<ValueView>) -> bool {
    forall|i: int| 0 <= i < s.len() ==> (#[trigger] s[i]).1 == value_of(s[i].1.2)
}

/// The device properties of one answer: names are unique, each bound to
/// one value.
pub struct Properties {
    entries: Vec<(String, Value)>,
}

impl View for Properties {
    type V = Assoc<ValueView>;

    closed spec fn view(&self) -> Assoc<ValueView> {
        self.entries@.map_values(|e: (String, Value)| (e.0@, e.1@))
    }
}

impl Properties {
    pub open spec fn wf(&self) -> bool {
        keys_unique(self@)
    }

    /// An empty map.
    pub fn new() -> (r: Properties)
        ensures
            r.wf(),
            r@ == Seq::<(Seq<char>, ValueView)>::empty(),
    {
        let r = Properties { entries: Vec::new() };
        assert(r@ =~= Seq::<(Seq<char>, ValueView)>::empty());
        r
    }

    /// The number of properties.
    pub fn len(&self) -> (r: usize)
        ensures
            r == self@.len(),
    {
        self.entries.len()
    }

    /// The `i`-th property, as (name, value).
    pub fn entry(&self, i: usize) -> (r: (&String, &Value))
        requires
            i < self@.len(),
        ensures
            (r.0@, r.1@) == self@[i as int],
    {
        let e = &self.entries[i];
        (&e.0, &e.1)
    }

    fn find(&self, k: &str) -> (r: Option<usize>)
        ensures
            r is None ==> !has_key(self@, k@),
            r matches Some(i) ==> i < self@.len() && self@[i as int].0 == k@,
    {
        let key = String::from_str(k);
        let mut i: usize = 0;
        while i < self.entries.len()
            invariant
                i <= self.entries@.len(),
                key@ == k@,
                forall|j: int| 0 <= j < i ==> #[trigger] self@[j].0 != k@,
            decreases self.entries@.len() - i,
        {
            if self.entries[i].0 == key {
                return Some(i);
            }
            i = i + 1;
        }
        None
    }

    /// The value of the property named `k`.
    pub fn get(&self, k: &str) -> (r: Option<&Value>)
        requires
            self.wf(),
        ensures
            r is None ==> assoc_get(self@, k@) is None,
            r matches Some(v) ==> assoc_get(self@, k@) == Some(v@),
    {
        match self.find(k) {
            Some(i) => {
                proof {
                    lemma_key_pos(self@, i as int);
                }
                Some(&self.entries[i].1)
            },
            None => None,
        }
    }

    /// Binds `k` to `v`; a later binding of a name replaces an earlier one.
    pub fn insert(&mut self, k: String, v: Value)
        requires
            old(self).wf(),
        ensures
            final(self).wf(),
            final(self)@ == assoc_put(old(self)@, k@, v@),
    {
        let ghost before = self@;
        proof {
            lemma_put_unique(before, k@, v@);
        }
        match self.find(k.as_str()) {
            Some(i) => {
                proof {
                    lemma_key_pos(before, i as int);
                }
                self.entries.set(i, (k, v));
                assert(self@ =~= assoc_put(before, k@, v@));
            },
            None => {
                self.entries.push((k, v));
                assert(self@ =~= assoc_put(before, k@, v@));
            },
        }
    }

    /// A deep copy, so that changing it leaves this map as it is.
    pub fn copy(&self) -> (r: Properties)
        ensures
            r@ == self@,
    {
        let mut entries: Vec<(String, Value)> = Vec::new();
        let mut i: usize = 0;
        while i < self.entries.len()
            invariant
                i <= self.entries@.len(),
                entries@.len() == i,
                forall|j: int| 0 <= j < i ==>
                    (#[trigger] entries@[j]).0@ == self.entries@[j].0@ && entries@[j].1@ == self.entries@[j].1@,
            decreases self.entries@.len() - i,
        {
            let e = &self.entries[i];
            entries.push((e.0.clone(), e.1.copy()));
            i = i + 1;
        }
        let r = Properties { entries };
        assert(r@ =~= self@);
        r
    }
}

} // verus!
