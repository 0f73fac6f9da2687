use vstd::prelude::*;

use super::State;

verus! {

/// A finite set of states, kept sorted by id so that iteration order is deterministic and
/// two sets with the same members have the same representation.
#[derive(Debug, Clone, PartialEq, Eq)]
pub struct StateSet {
    states: Vec<State>,
}

impl View for StateSet {
    type V = Set<nat>;

    closed spec fn view(&self) -> Set<nat> {
        Set::new(|n: nat| exists|i: int| 0 <= i < self.states@.len() && self.states@[i]@ == n)
    }
}

impl StateSet {
    /// The members in increasing order.
    pub closed spec fn elems(&self) -> Seq<State> {
        self.states@
    }

    /// The members are strictly increasing by id.
    pub open spec fn wf(&self) -> bool {
        forall|i: int, j: int| 0 <= i < j < self.elems().len() ==> self.elems()[i].id < self.elems()[j].id
    }

    pub proof fn lemma_view_elems(&self)
        ensures
            forall|i: int| 0 <= i < self.elems().len() ==> #[trigger] self@.contains(self.elems()[i]@),
            forall|n: nat| #[trigger] self@.contains(n) ==> exists|i: int|
                0 <= i < self.elems().len() && self.elems()[i]@ == n,
            self@.finite(),
    {
        assert forall|i: int| 0 <= i < self.elems().len() implies #[trigger] self@.contains(self.elems()[i]@) by {
            assert(self.states@[i]@ == self.elems()[i]@);
        }
        assert forall|n: nat| #[trigger] self@.contains(n) implies exists|i: int|
            0 <= i < self.elems().len() && self.elems()[i]@ == n by {
            let i = choose|i: int| 0 <= i < self.states@.len() && self.states@[i]@ == n;
            assert(self.elems()[i]@ == n);
        }
        let ids = self.states@.map_values(|s: State| s@);
        assert(self@ =~= ids.to_set()) by {
            assert forall|n: nat| self@.contains(n) implies ids.to_set().contains(n) by {
                let i = choose|i: int| 0 <= i < self.states@.len() && self.states@[i]@ == n;
                assert(ids[i] == n);
            }
            assert forall|n: nat| ids.to_set().contains(n) implies self@.contains(n) by {
                let i = choose|i: int| 0 <= i < ids.len() && ids[i] == n;
                assert(self.states@[i]@ == n);
            }
        }
        vstd::seq_lib::seq_to_set_is_finite(ids);
    }

    pub proof fn lemma_len_bound(&self)
        ensures
            self.elems().len() <= usize::MAX,
    {
        assert(self.states.len() == self.states@.len());
    }

    pub fn new() -> (r: StateSet)
        ensures
            r.wf(),
            r@ == Set::<nat>::empty(),
            r.elems().len() == 0,
    {
        let r = StateSet { states: Vec::new() };
        assert(r@ =~= Set::<nat>::empty());
        r
    }

    pub fn len(&self) -> (r: usize)
        ensures
            r == self.elems().len(),
    {
        self.states.len()
    }

    pub fn is_empty(&self) -> (r: bool)
        requires
            self.wf(),
        ensures
            r == (self@ == Set::<nat>::empty()),
            r == (self.elems().len() == 0),
    {
        proof {
            self.lemma_view_elems();
            if self.states@.len() > 0 {
                assert(self@.contains(self.elems()[0]@));
            }
        }
        assert(self.states@.len() == 0 ==> self@ =~= Set::<nat>::empty());
        self.states.len() == 0
    }

    /// The member at position `i` in increasing order.
    pub fn get(&self, i: usize) -> (r: State)
        requires
            i < self.elems().len(),
        ensures
            r == self.elems()[i as int],
    {
        self.states[i]
    }

    pub fn contains(&self, s: &State) -> (r: bool)
        ensures
            r == self@.contains(s@),
    {
        let mut i: usize = 0;
        while i < self.states.len()
            invariant
                i <= self.states@.len(),
                forall|j: int| 0 <= j < i ==> self.states@[j]@ != s@,
            decreases self.states@.len() - i,
        {
            if self.states[i].id == s.id {
                assert(self.states@[i as int]@ == s@);
                return true;
            }
            i = i + 1;
        }
        false
    }

    /// Adds `s`, keeping the members sorted; reports whether it was new.
    pub fn insert(&mut self, s: State) -> (added: bool)
        requires
            old(self).wf(),
        ensures
            final(self).wf(),
            final(self)@ == old(self)@.insert(s@),
            added == !old(self)@.contains(s@),
            added ==> final(self).elems().len() == old(self).elems().len() + 1,
            !added ==> final(self).elems() == old(self).elems(),
    {
        proof {
            self.lemma_view_elems();
        }
        let mut i: usize = 0;
        while i < self.states.len() && self.states[i].id < s.id
            invariant
                self.wf(),
                i <= self.states@.len(),
                forall|j: int| 0 <= j < i ==> self.states@[j].id < s.id,
            decreases self.states@.len() - i,
        {
            i = i + 1;
        }
        if i < self.states.len() && self.states[i].id == s.id {
            assert(self@.contains(self.elems()[i as int]@));
            assert(self@.insert(s@) =~= self@);
            return false;
        }
        assert forall|j: int| i <= j < self.states@.len() implies self.states@[j].id > s.id by {
            assert(self.states@[i as int].id >= s.id);
            assert(self.states@[i as int].id != s.id);
            if j > i {
                assert(self.elems()[i as int].id < self.elems()[j].id);
            }
        }
        assert(!self@.contains(s@)) by {
            if self@.contains(s@) {
                let j = choose|j: int| 0 <= j < self.elems().len() && self.elems()[j]@ == s@;
                assert(self.states@[j].id == s.id);
            }
        }
        let ghost before = *self;
        self.states.insert(i, s);
        proof {
            assert(self.states@ == before.states@.insert(i as int, s));
            assert forall|n: nat| #[trigger] self@.contains(n) == before@.insert(s@).contains(n) by {
                if before@.contains(n) {
                    let j = choose|j: int| 0 <= j < before.elems().len() && before.elems()[j]@ == n;
                    if j < i {
                        assert(self.states@[j]@ == n);
                    } else {
                        assert(self.states@[j + 1]@ == n);
                    }
                }
                if n == s@ {
                    assert(self.states@[i as int]@ == n);
                }
                if self@.contains(n) {
                    let j = choose|j: int| 0 <= j < self.states@.len() && self.states@[j]@ == n;
                    if j < i {
                        assert(before.states@[j]@ == n);
                    } else if j > i {
                        assert(before.states@[j - 1]@ == n);
                    }
                }
            }
            assert(self@ =~= before@.insert(s@));
        }
        true
    }

    /// Removes and returns the least member.
    pub fn pop_first(&mut self) -> (r: State)
        requires
            old(self).wf(),
            old(self).elems().len() > 0,
        ensures
            final(self).wf(),
            r == old(self).elems()[0],
            final(self)@ == old(self)@.remove(r@),
            old(self)@.contains(r@),
            final(self).elems().len() == old(self).elems().len() - 1,
    {
        proof {
            self.lemma_view_elems();
        }
        let ghost before = *self;
        let r = self.states.remove(0);
        proof {
            assert(self.states@ == before.states@.subrange(1, before.states@.len() as int));
            assert forall|n: nat| #[trigger] self@.contains(n) == before@.remove(r@).contains(n) by {
                if before@.contains(n) && n != r@ {
                    let j = choose|j: int| 0 <= j < before.elems().len() && before.elems()[j]@ == n;
                    assert(j != 0);
                    assert(self.states@[j - 1]@ == n);
                }
                if self@.contains(n) {
                    let j = choose|j: int| 0 <= j < self.states@.len() && self.states@[j]@ == n;
                    assert(before.states@[j + 1]@ == n);
                    assert(before.states@[0].id < before.states@[j + 1].id);
                }
            }
            assert(self@ =~= before@.remove(r@));
        }
        r
    }

    /// A copy holding the same members.
    pub fn copy(&self) -> (r: StateSet)
        ensures
            r.elems() == self.elems(),
            r@ == self@,
    {
        let mut states: Vec<State> = Vec::new();
        let mut i: usize = 0;
        while i < self.states.len()
            invariant
                i <= self.states@.len(),
                states@ == self.states@.subrange(0, i as int),
            decreases self.states@.len() - i,
        {
            states.push(self.states[i]);
            i = i + 1;
        }
        assert(states@ =~= self.states@);
        StateSet { states }
    }

    /// Adds every member of `other`.
    pub fn extend(&mut self, other: &StateSet)
        requires
            old(self).wf(),
        ensures
            final(self).wf(),
            final(self)@ == old(self)@.union(other@),
    {
        let ghost start = self@;
        let mut i: usize = 0;
        while i < other.states.len()
            invariant
                self.wf(),
                i <= other.states@.len(),
                self@ == start.union(Set::new(|n: nat| exists|j: int| 0 <= j < i && other.states@[j]@ == n)),
            decreases other.states@.len() - i,
        {
            let ghost prev = self@;
            self.insert(other.states[i]);
            proof {
                assert(self@ =~= start.union(Set::new(|n: nat| exists|j: int| 0 <= j < i + 1 && other.states@[j]@ == n))) by {
                    assert(other.states@[i as int]@ == other.states@[i as int]@);
                    assert forall|n: nat| (exists|j: int| 0 <= j < i + 1 && other.states@[j]@ == n) implies
                        prev.insert(other.states@[i as int]@).contains(n) by {
                        let j = choose|j: int| 0 <= j < i + 1 && other.states@[j]@ == n;
                        if j < i {
                            assert(prev.contains(n));
                        }
                    }
                }
            }
            i = i + 1;
        }
        assert(self@ =~= start.union(other@));
    }

    /// Whether the two sets share a member.
    pub fn intersects(&self, other: &StateSet) -> (r: bool)
        ensures
            r == !self@.disjoint(other@),
    {
        let mut i: usize = 0;
        while i < self.states.len()
            invariant
                i <= self.states@.len(),
                forall|j: int| 0 <= j < i ==> !other@.contains(#[trigger] self.states@[j]@),
            decreases self.states@.len() - i,
        {
            if other.contains(&self.states[i]) {
                assert(self@.contains(self.states@[i as int]@));
                assert(other@.contains(self.states@[i as int]@));
                return true;
            }
            i = i + 1;
        }
        assert(self@.disjoint(other@)) by {
            assert forall|n: nat| self@.contains(n) implies !other@.contains(n) by {
                let j = choose|j: int| 0 <= j < self.states@.len() && self.states@[j]@ == n;
            }
        }
        false
    }
}

} // verus!
