//! A set of string ids kept in insertion order.
use crate::text::str_eq;
use vstd::prelude::*;

verus! {

pub open spec fn ids_view(v: Seq<String>) -> Seq<Seq<char>> {
    v.map_values(|s: String| s@)
}

/// A set of ids, each held once.
pub struct IdSet {
    items: Vec<String>,
}

impl IdSet {
    /// The ids held.
    pub closed spec fn ids(&self) -> Set<Seq<char>> {
        ids_view(self.items@).to_set()
    }

    #[verifier::type_invariant]
    closed spec fn no_repeats(&self) -> bool {
        ids_view(self.items@).no_duplicates()
    }

    /// The empty set.
    pub fn new() -> (out: IdSet)
        ensures
            out.ids() == Set::<Seq<char>>::empty(),
    {
        let out = IdSet { items: Vec::new() };
        proof {
            assert(ids_view(out.items@).to_set() =~= Set::<Seq<char>>::empty());
        }
        out
    }

    fn position(&self, id: &str) -> (out: Option<usize>)
        ensures
            match out {
                Some(i) => i < self.items.len() && self.items@[i as int]@ == id@,
                None => !self.ids().contains(id@),
            },
    {
        let mut i: usize = 0;
        while i < self.items.len()
            invariant
                i <= self.items.len(),
                forall|k: int| 0 <= k < i ==> self.items@[k]@ != id@,
            decreases self.items.len() - i,
        {
            if str_eq(self.items[i].as_str(), id) {
                return Some(i);
            }
            i += 1;
        }
        proof {
            if ids_view(self.items@).to_set().contains(id@) {
                let k = choose|k: int|
                    0 <= k < ids_view(self.items@).len() && ids_view(self.items@)[k] == id@;
                assert(self.items@[k]@ != id@);
            }
        }
        None
    }

    /// Whether `id` is held.
    pub fn contains(&self, id: &str) -> (out: bool)
        ensures
            out == self.ids().contains(id@),
    {
        match self.position(id) {
            Some(i) => {
                proof {
                    assert(ids_view(self.items@)[i as int] == id@);
                }
                true
            },
            None => false,
        }
    }

    /// Adds `id`; `true` when it was not held before.
    pub fn insert(&mut self, id: &str) -> (added: bool)
        ensures
            added == !old(self).ids().contains(id@),
            final(self).ids() == old(self).ids().insert(id@),
    {
        proof {
            use_type_invariant(&*self);
        }
        match self.position(id) {
            Some(i) => {
                proof {
                    assert(ids_view(self.items@)[i as int] == id@);
                    assert(self.ids().insert(id@) =~= self.ids());
                }
                false
            },
            None => {
                let ghost before = ids_view(self.items@);
                let mut w: Vec<String> = Vec::new();
                std::mem::swap(&mut w, &mut self.items);
                w.push(id.to_owned());
                proof {
                    assert(ids_view(w@) =~= before.push(id@));
                    before.lemma_push_to_set_commute(id@);
                    assert(ids_view(w@).to_set() =~= before.to_set().insert(id@));
                    assert forall|a: int, b: int|
                        0 <= a < b < ids_view(w@).len() implies ids_view(w@)[a] != ids_view(
                        w@,
                    )[b] by {
                        if b == before.len() {
                            assert(before.to_set().contains(before[a]));
                        }
                    }
                }
                self.items = w;
                true
            },
        }
    }

    /// Takes `id` out.
    pub fn remove(&mut self, id: &str)
        ensures
            final(self).ids() == old(self).ids().remove(id@),
    {
        proof {
            use_type_invariant(&*self);
        }
        let ghost before = ids_view(self.items@);
        match self.position(id) {
            Some(i) => {
                let mut w: Vec<String> = Vec::new();
                std::mem::swap(&mut w, &mut self.items);
                w.remove(i);
                proof {
                    assert(ids_view(w@) =~= before.remove(i as int));
                    assert forall|a: int, b: int|
                        0 <= a < b < ids_view(w@).len() implies ids_view(w@)[a] != ids_view(
                        w@,
                    )[b] by {
                        let a2 = if a < i {
                            a
                        } else {
                            a + 1
                        };
                        let b2 = if b < i {
                            b
                        } else {
                            b + 1
                        };
                        assert(ids_view(w@)[a] == before[a2]);
                        assert(ids_view(w@)[b] == before[b2]);
                    }
                }
                self.items = w;
                proof {
                    let after = ids_view(self.items@);
                    assert(after =~= before.remove(i as int));
                    assert forall|x: Seq<char>| after.contains(x) implies before.contains(x) && x
                        != id@ by {
                        let k = choose|k: int| 0 <= k < after.len() && after[k] == x;
                        if k < i {
                            assert(before[k] == x);
                            assert(before[k] != before[i as int]);
                        } else {
                            assert(before[k + 1] == x);
                            assert(before[k + 1] != before[i as int]);
                        }
                    }
                    assert forall|x: Seq<char>| before.contains(x) && x != id@ implies after.contains(
                        x,
                    ) by {
                        let k = choose|k: int| 0 <= k < before.len() && before[k] == x;
                        assert(k != i);
                        if k < i {
                            assert(after[k] == x);
                        } else {
                            assert(after[k - 1] == x);
                        }
                    }
                    assert(ids_view(self.items@).to_set() =~= before.to_set().remove(id@));
                }
            },
            None => {
                proof {
                    assert(self.ids().remove(id@) =~= self.ids());
                }
            },
        }
    }

    /// The ids, in the order they were added.
    pub fn to_vec(&self) -> (out: Vec<String>)
        ensures
            ids_view(out@).to_set() == self.ids(),
            ids_view(out@).no_duplicates(),
    {
        proof {
            use_type_invariant(self);
        }
        let mut out: Vec<String> = Vec::new();
        let mut i: usize = 0;
        while i < self.items.len()
            invariant
                i <= self.items.len(),
                ids_view(out@) == ids_view(self.items@).take(i as int),
            decreases self.items.len() - i,
        {
            let ghost before = ids_view(out@);
            out.push(self.items[i].clone());
            proof {
                assert(ids_view(out@) =~= before.push(self.items@[i as int]@));
                assert(ids_view(self.items@).take(i + 1) =~= ids_view(self.items@).take(
                    i as int,
                ).push(self.items@[i as int]@));
            }
            i += 1;
        }
        proof {
            assert(ids_view(self.items@).take(self.items.len() as int) =~= ids_view(self.items@));
        }
        out
    }
}

} // verus!
