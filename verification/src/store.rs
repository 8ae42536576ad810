//! The variable store: a mapping from variable name to its current
//! natural-number value, modelled as `Map<Seq<u8>, u32>`.
//!
//! Kept as an association list with first-match lookup; `set` updates the
//! first entry in place, so a key never occurs meaningfully more than once.

use vstd::prelude::*;
use vstd::pervasive::VecAdditionalExecFns;

verus! {

/// First-match lookup in an entry list.
pub open spec fn spec_lookup(es: Seq<(Vec<u8>, u32)>, k: Seq<u8>) -> Option<u32>
    decreases es.len(),
{
    if es.len() == 0 {
        None
    } else if es[0].0@ == k {
        Some(es[0].1)
    } else {
        spec_lookup(es.skip(1), k)
    }
}

proof fn lemma_lookup_update(es: Seq<(Vec<u8>, u32)>, i: int, p: (Vec<u8>, u32), k: Seq<u8>)
    requires
        0 <= i < es.len(),
        forall|j: int| 0 <= j < i ==> es[j].0@ != p.0@,
        es[i].0@ == p.0@,
    ensures
        spec_lookup(es.update(i, p), k) == if k == p.0@ {
            Some(p.1)
        } else {
            spec_lookup(es, k)
        },
    decreases es.len(),
{
    let up = es.update(i, p);
    if i == 0 {
        assert(up[0] == p);
        if k != p.0@ {
            assert(up.skip(1) =~= es.skip(1));
        }
    } else {
        assert(up[0] == es[0]);
        assert(es[0].0@ != p.0@);
        assert(up.skip(1) =~= es.skip(1).update(i - 1, p));
        lemma_lookup_update(es.skip(1), i - 1, p, k);
    }
}

proof fn lemma_lookup_push(es: Seq<(Vec<u8>, u32)>, p: (Vec<u8>, u32), k: Seq<u8>)
    ensures
        spec_lookup(es.push(p), k) == if spec_lookup(es, k) is Some {
            spec_lookup(es, k)
        } else if k == p.0@ {
            Some(p.1)
        } else {
            None::<u32>
        },
    decreases es.len(),
{
    if es.len() == 0 {
        assert(es.push(p)[0] == p);
        assert(es.push(p).skip(1) =~= Seq::<(Vec<u8>, u32)>::empty());
        if k == p.0@ {
            assert(spec_lookup(es.push(p), k) == Some(p.1));
        } else {
            assert(spec_lookup(es.push(p), k) == spec_lookup(es.push(p).skip(1), k));
        }
    } else {
        assert(es.push(p)[0] == es[0]);
        assert(es.push(p).skip(1) =~= es.skip(1).push(p));
        lemma_lookup_push(es.skip(1), p, k);
        if es[0].0@ == k {
            assert(spec_lookup(es.push(p), k) == Some(es[0].1));
            assert(spec_lookup(es, k) == Some(es[0].1));
        } else {
            assert(spec_lookup(es.push(p), k) == spec_lookup(es.skip(1).push(p), k));
            assert(spec_lookup(es, k) == spec_lookup(es.skip(1), k));
        }
    }
}

/// The variable store.
pub struct Store {
    entries: Vec<(Vec<u8>, u32)>,
}

impl View for Store {
    type V = Map<Seq<u8>, u32>;

    /// The mapping the store denotes: the keys present, each at the value of
    /// its first entry.
    closed spec fn view(&self) -> Map<Seq<u8>, u32> {
        Map::new(
            |k: Seq<u8>| spec_lookup(self.entries@, k) is Some,
            |k: Seq<u8>| spec_lookup(self.entries@, k)->Some_0,
        )
    }
}

impl Store {
    /// Creates an empty store.
    pub fn new() -> (s: Store)
        ensures
            s@ == Map::<Seq<u8>, u32>::empty(),
    {
        let s = Store { entries: Vec::new() };
        proof {
            assert(s@ =~= Map::<Seq<u8>, u32>::empty());
        }
        s
    }

    /// Reads a variable: its value, or `None` when the name is absent.
    pub fn get(&self, k: &Vec<u8>) -> (r: Option<u32>)
        ensures
            r == if self@.contains_key(k@) {
                Some(self@[k@])
            } else {
                None::<u32>
            },
    {
        let mut i: usize = 0;
        assert(self.entries@.skip(0) =~= self.entries@);
        while i < self.entries.len()
            invariant
                i <= self.entries.len(),
                spec_lookup(self.entries@, k@) == spec_lookup(self.entries@.skip(i as int), k@),
            decreases self.entries.len() - i,
        {
            let ghost tail = self.entries@.skip(i as int);
            assert(tail[0] == self.entries@[i as int]);
            assert(tail.skip(1) =~= self.entries@.skip(i + 1 as int));
            if crate::lex::bytes_eq(&self.entries[i].0, k) {
                return Some(self.entries[i].1);
            }
            i = i + 1;
        }
        assert(self.entries@.skip(i as int) =~= Seq::<(Vec<u8>, u32)>::empty());
        None
    }

    /// Reads a variable that is known to be present.
    pub fn get_present(&self, k: &Vec<u8>) -> (r: u32)
        requires
            self@.contains_key(k@),
        ensures
            r == self@[k@],
    {
        match self.get(k) {
            Some(v) => v,
            None => {
                // unreachable: the key is present by precondition
                assert(false);
                0
            },
        }
    }

    /// Writes a variable, adding it if absent.
    pub fn set(&mut self, k: &Vec<u8>, v: u32)
        ensures
            final(self)@ == old(self)@.insert(k@, v),
    {
        let mut i: usize = 0;
        while i < self.entries.len()
            invariant
                i <= self.entries.len(),
                self == old(self),
                forall|j: int| 0 <= j < i ==> self.entries@[j].0@ != k@,
            decreases self.entries.len() - i,
        {
            if crate::lex::bytes_eq(&self.entries[i].0, k) {
                let key = crate::lex::copy_bytes(k);
                self.entries.set(i, (key, v));
                proof {
                    lemma_lookup_update_all(old(self).entries@, i as int, (key, v));
                    assert(self@ =~= old(self)@.insert(k@, v));
                }
                return;
            }
            i = i + 1;
        }
        let key = crate::lex::copy_bytes(k);
        self.entries.push((key, v));
        proof {
            lemma_lookup_push_all(old(self).entries@, (key, v));
            assert(spec_lookup(old(self).entries@, k@) is None) by {
                lemma_lookup_no_match(old(self).entries@, k@);
            }
            assert(self@ =~= old(self)@.insert(k@, v));
        }
    }
}

proof fn lemma_lookup_update_all(es: Seq<(Vec<u8>, u32)>, i: int, p: (Vec<u8>, u32))
    requires
        0 <= i < es.len(),
        forall|j: int| 0 <= j < i ==> es[j].0@ != p.0@,
        es[i].0@ == p.0@,
    ensures
        forall|k: Seq<u8>|
            #[trigger] spec_lookup(es.update(i, p), k) == if k == p.0@ {
                Some(p.1)
            } else {
                spec_lookup(es, k)
            },
{
    assert forall|k: Seq<u8>|
        #[trigger] spec_lookup(es.update(i, p), k) == if k == p.0@ {
            Some(p.1)
        } else {
            spec_lookup(es, k)
        } by {
        lemma_lookup_update(es, i, p, k);
    }
}

proof fn lemma_lookup_push_all(es: Seq<(Vec<u8>, u32)>, p: (Vec<u8>, u32))
    ensures
        forall|k: Seq<u8>|
            #[trigger] spec_lookup(es.push(p), k) == if spec_lookup(es, k) is Some {
                spec_lookup(es, k)
            } else if k == p.0@ {
                Some(p.1)
            } else {
                None::<u32>
            },
{
    assert forall|k: Seq<u8>|
        #[trigger] spec_lookup(es.push(p), k) == if spec_lookup(es, k) is Some {
            spec_lookup(es, k)
        } else if k == p.0@ {
            Some(p.1)
        } else {
            None::<u32>
        } by {
        lemma_lookup_push(es, p, k);
    }
}

proof fn lemma_lookup_no_match(es: Seq<(Vec<u8>, u32)>, k: Seq<u8>)
    requires
        forall|j: int| 0 <= j < es.len() ==> es[j].0@ != k,
    ensures
        spec_lookup(es, k) is None,
    decreases es.len(),
{
    if es.len() > 0 {
        assert(es.skip(1) =~= es.subrange(1, es.len() as int));
        assert(forall|j: int| 0 <= j < es.skip(1).len() ==> es.skip(1)[j] == es[j + 1]);
        lemma_lookup_no_match(es.skip(1), k);
    }
}

} // verus!
