//! The event-occurrence payload: a string-to-string mapping with unique
//! keys, produced fresh by an event source and consumed once by the
//! dispatch loop.

use vstd::prelude::*;

verus! {

/// One key/value pair of a [`Context`].
pub struct ContextEntry {
    pub key: String,
    pub value: String,
}

/// An event payload. The view is the sequence of `(key, value)` pairs in
/// insertion order; well-formed contexts have pairwise distinct keys, so
/// the sequence also reads as a map.
pub struct Context {
    pub entries: Vec<ContextEntry>,
}

impl View for Context {
    type V = Seq<(Seq<char>, Seq<char>)>;

    open spec fn view(&self) -> Seq<(Seq<char>, Seq<char>)> {
        self.entries@.map_values(|e: ContextEntry| (e.key@, e.value@))
    }
}

impl Context {
    /// Keys are pairwise distinct.
    pub open spec fn wf(self) -> bool {
        forall|i: int, j: int| 0 <= i < j < self@.len() ==> self@[i].0 != self@[j].0
    }

    pub open spec fn has_key(self, k: Seq<char>) -> bool {
        exists|i: int| 0 <= i < self@.len() && self@[i].0 == k
    }

    /// The value under key `k`, if present.
    pub open spec fn value_of(self, k: Seq<char>) -> Option<Seq<char>> {
        if self.has_key(k) {
            let i = choose|i: int| 0 <= i < self@.len() && self@[i].0 == k;
            Some(self@[i].1)
        } else {
            None
        }
    }

    pub fn new() -> (r: Context)
        ensures
            r@ == Seq::<(Seq<char>, Seq<char>)>::empty(),
            r.wf(),
    {
        let r = Context { entries: Vec::new() };
        proof {
            assert(r@ =~= Seq::<(Seq<char>, Seq<char>)>::empty());
        }
        r
    }

    /// Appends a binding for a key not yet present.
    pub fn insert(&mut self, key: String, value: String)
        requires
            old(self).wf(),
            !old(self).has_key(key@),
        ensures
            final(self)@ == old(self)@.push((key@, value@)),
            final(self).wf(),
    {
        let ghost pre = self@;
        let ghost k = key@;
        let ghost v = value@;
        self.entries.push(ContextEntry { key, value });
        proof {
            assert(self@ =~= pre.push((k, v)));
            assert forall|i: int, j: int| 0 <= i < j < self@.len() implies self@[i].0
                != self@[j].0 by {
                if j < self@.len() - 1 {
                    assert(pre[i].0 != pre[j].0);
                } else if self@[i].0 == self@[j].0 {
                    assert(pre[i].0 == k);
                    assert(old(self).has_key(k));
                }
            }
        }
    }

    /// The number of bindings.
    pub fn len(&self) -> (r: usize)
        ensures
            r == self@.len(),
    {
        self.entries.len()
    }

    /// The entry at position `i`, in insertion order.
    pub fn entry_at(&self, i: usize) -> (r: (&String, &String))
        requires
            i < self@.len(),
        ensures
            r.0@ == self@[i as int].0,
            r.1@ == self@[i as int].1,
    {
        (&self.entries[i].key, &self.entries[i].value)
    }

    /// The value bound to `key`, if any.
    pub fn get(&self, key: &str) -> (r: Option<&String>)
        requires
            self.wf(),
        ensures
            match r {
                Some(v) => self.value_of(key@) == Some(v@),
                None => self.value_of(key@) is None,
            },
    {
        let n = self.entries.len();
        let mut i: usize = 0;
        while i < n
            invariant
                self.wf(),
                n == self@.len(),
                i <= n,
                forall|j: int| 0 <= j < i ==> self@[j].0 != key@,
            decreases n - i,
        {
            if crate::text::str_eq(self.entries[i].key.as_str(), key) {
                proof {
                    assert(self@[i as int] == (
                        self.entries@[i as int].key@,
                        self.entries@[i as int].value@,
                    ));
                    assert(self@[i as int].0 == key@);
                    let w = choose|w: int| 0 <= w < self@.len() && self@[w].0 == key@;
                    if w < i {
                        assert(self@[w].0 != self@[i as int].0);
                    } else if i < w {
                        assert(self@[i as int].0 != self@[w].0);
                    }
                    assert(w == i);
                }
                return Some(&self.entries[i].value);
            }
            i = i + 1;
        }
        proof {
            if self.has_key(key@) {
                let w = choose|w: int| 0 <= w < self@.len() && self@[w].0 == key@;
                assert(self@[w].0 != key@);
            }
        }
        None
    }

    /// A value-equal copy.
    pub fn duplicate(&self) -> (r: Context)
        ensures
            r@ == self@,
            r.wf() == self.wf(),
    {
        let n = self.entries.len();
        let mut entries: Vec<ContextEntry> = Vec::new();
        let mut i: usize = 0;
        while i < n
            invariant
                n == self@.len(),
                n == self.entries@.len(),
                i <= n,
                entries@.len() == i,
                forall|j: int| 0 <= j < i ==> #[trigger] entries@[j].key@ == self@[j].0
                    && entries@[j].value@ == self@[j].1,
            decreases n - i,
        {
            let key = self.entries[i].key.clone();
            let value = self.entries[i].value.clone();
            proof {
                assert(self@[i as int] == (
                    self.entries@[i as int].key@,
                    self.entries@[i as int].value@,
                ));
            }
            entries.push(ContextEntry { key, value });
            i = i + 1;
        }
        let r = Context { entries };
        proof {
            assert forall|j: int| 0 <= j < n implies r@[j] == self@[j] by {
                assert(r@[j] == (entries@[j].key@, entries@[j].value@));
                assert(self@[j] == (self.entries@[j].key@, self.entries@[j].value@));
            }
            assert(r@ =~= self@);
        }
        r
    }
}

} // verus!
