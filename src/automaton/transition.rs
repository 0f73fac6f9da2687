use vstd::prelude::*;

use super::state_set::StateSet;
use super::State;

verus! {

/// One labelled edge of the transition relation: (symbol, source id, target id).
/// The empty symbol is the epsilon label.
pub type EdgeModel = (Seq<char>, nat, nat);

/// The states reached from `q` in one step labelled `sym`; empty where there is no such edge.
pub open spec fn targets(rel: Set<EdgeModel>, sym: Seq<char>, q: nat) -> Set<nat> {
    Set::new(|t: nat| rel.contains((sym, q, t)))
}

/// A key of the transition relation: a symbol (empty for epsilon) and a source state.
#[derive(Debug, Clone, PartialEq, Eq, Hash)]
pub struct NFAInput {
    pub input: String,
    pub current_state: State,
}

impl NFAInput {
    pub fn new(input: String, current_state: State) -> (r: NFAInput)
        ensures
            r.input@ == input@,
            r.current_state == current_state,
    {
        NFAInput { input, current_state }
    }
}

#[derive(Debug, Clone)]
struct Edge {
    key: NFAInput,
    next: State,
}

spec fn edge_model(e: Edge) -> EdgeModel {
    (e.key.input@, e.key.current_state@, e.next@)
}

/// The transition relation of an automaton, as a list of distinct edges.
#[derive(Debug, Clone)]
pub struct TransitionMap {
    edges: Vec<Edge>,
}

impl View for TransitionMap {
    type V = Set<EdgeModel>;

    closed spec fn view(&self) -> Set<EdgeModel> {
        Set::new(|e: EdgeModel| exists|i: int| 0 <= i < self.edges@.len() && edge_model(self.edges@[i]) == e)
    }
}

impl TransitionMap {
    /// The edges in the order they are kept.
    pub closed spec fn edge_list(&self) -> Seq<EdgeModel> {
        self.edges@.map_values(|e: Edge| edge_model(e))
    }

    /// The listed edges are exactly the relation, each listed once when the map is well formed.
    pub proof fn lemma_edge_list(&self)
        ensures
            self.edge_list().to_set() == self@,
            self.wf() ==> self.edge_list().no_duplicates(),
    {
        let ms = self.edge_list();
        assert(self@ =~= ms.to_set()) by {
            assert forall|e: EdgeModel| self@.contains(e) implies ms.to_set().contains(e) by {
                let i = choose|i: int| 0 <= i < self.edges@.len() && edge_model(self.edges@[i]) == e;
                assert(ms[i] == e);
            }
            assert forall|e: EdgeModel| ms.to_set().contains(e) implies self@.contains(e) by {
                let i = choose|i: int| 0 <= i < ms.len() && ms[i] == e;
                assert(edge_model(self.edges@[i]) == e);
            }
        }
        if self.wf() {
            assert forall|i: int, j: int| 0 <= i < ms.len() && 0 <= j < ms.len() && i != j implies ms[i] != ms[j] by {
                if i < j {
                    assert(edge_model(self.edges@[i]) != edge_model(self.edges@[j]));
                } else {
                    assert(edge_model(self.edges@[j]) != edge_model(self.edges@[i]));
                }
            }
        }
    }

    /// The number of edges kept; the same as `len` on a well-formed map.
    pub fn edge_count(&self) -> (r: usize)
        ensures
            r == self.edge_list().len(),
    {
        self.edges.len()
    }

    /// The label, source and target of the edge at position `i`.
    pub fn edge_at(&self, i: usize) -> (r: (&String, State, State))
        requires
            i < self.edge_list().len(),
        ensures
            (r.0@, r.1@, r.2@) == self.edge_list()[i as int],
    {
        let edge = &self.edges[i];
        (&edge.key.input, edge.key.current_state, edge.next)
    }

    /// No edge is listed twice.
    pub closed spec fn wf(&self) -> bool {
        forall|i: int, j: int| 0 <= i < j < self.edges@.len() ==> edge_model(self.edges@[i]) != edge_model(self.edges@[j])
    }

    proof fn lemma_finite(&self)
        ensures
            self@.finite(),
            self.wf() ==> self@.len() == self.edges@.len(),
    {
        let ms = self.edges@.map_values(|e: Edge| edge_model(e));
        assert(self@ =~= ms.to_set()) by {
            assert forall|e: EdgeModel| self@.contains(e) implies ms.to_set().contains(e) by {
                let i = choose|i: int| 0 <= i < self.edges@.len() && edge_model(self.edges@[i]) == e;
                assert(ms[i] == e);
            }
            assert forall|e: EdgeModel| ms.to_set().contains(e) implies self@.contains(e) by {
                let i = choose|i: int| 0 <= i < ms.len() && ms[i] == e;
                assert(edge_model(self.edges@[i]) == e);
            }
        }
        vstd::seq_lib::seq_to_set_is_finite(ms);
        if self.wf() {
            assert(ms.no_duplicates());
            ms.unique_seq_to_set();
        }
    }

    pub fn new() -> (r: TransitionMap)
        ensures
            r.wf(),
            r@ == Set::<EdgeModel>::empty(),
    {
        let r = TransitionMap { edges: Vec::new() };
        assert(r@ =~= Set::<EdgeModel>::empty());
        r
    }

    /// The number of edges.
    pub fn len(&self) -> (r: usize)
        requires
            self.wf(),
        ensures
            r == self@.len(),
    {
        proof {
            self.lemma_finite();
        }
        self.edges.len()
    }

    fn has_edge(&self, key: &NFAInput, next: State) -> (r: bool)
        ensures
            r == self@.contains((key.input@, key.current_state@, next@)),
    {
        let ghost e = (key.input@, key.current_state@, next@);
        let mut i: usize = 0;
        while i < self.edges.len()
            invariant
                i <= self.edges@.len(),
                e == (key.input@, key.current_state@, next@),
                forall|j: int| 0 <= j < i ==> edge_model(#[trigger] self.edges@[j]) != e,
            decreases self.edges@.len() - i,
        {
            let edge = &self.edges[i];
            if edge.key.current_state.id == key.current_state.id && edge.next.id == next.id
                && edge.key.input == key.input {
                assert(edge_model(self.edges@[i as int]) == e);
                return true;
            }
            i = i + 1;
        }
        false
    }

    /// Adds the edge from `key.current_state` to `next` labelled `key.input`.
    pub fn connect(&mut self, key: NFAInput, next: State)
        requires
            old(self).wf(),
        ensures
            final(self).wf(),
            final(self)@ == old(self)@.insert((key.input@, key.current_state@, next@)),
    {
        let ghost e = (key.input@, key.current_state@, next@);
        if self.has_edge(&key, next) {
            assert(self@.insert(e) =~= self@);
            return;
        }
        let ghost before = *self;
        let edge = Edge { key, next };
        assert(edge_model(edge) == e);
        self.edges.push(edge);
        proof {
            assert(self.edges@ == before.edges@.push(edge));
            assert forall|x: EdgeModel| #[trigger] self@.contains(x) == before@.insert(e).contains(x) by {
                if before@.contains(x) {
                    let j = choose|j: int| 0 <= j < before.edges@.len() && edge_model(before.edges@[j]) == x;
                    assert(self.edges@[j] == before.edges@[j]);
                }
                if x == e {
                    assert(edge_model(self.edges@[before.edges@.len() as int]) == x);
                }
                if self@.contains(x) {
                    let j = choose|j: int| 0 <= j < self.edges@.len() && edge_model(self.edges@[j]) == x;
                    if j < before.edges@.len() {
                        assert(before.edges@[j] == self.edges@[j]);
                    }
                }
            }
            assert(self@ =~= before@.insert(e));
            assert forall|i: int, j: int| 0 <= i < j < self.edges@.len() implies
                edge_model(self.edges@[i]) != edge_model(self.edges@[j]) by {
                if j == before.edges@.len() {
                    assert(before@.contains(edge_model(before.edges@[i])));
                } else {
                    assert(self.edges@[i] == before.edges@[i]);
                    assert(self.edges@[j] == before.edges@[j]);
                }
            }
        }
    }

    /// Adds every edge of `other`.
    pub fn extend(&mut self, other: &TransitionMap)
        requires
            old(self).wf(),
        ensures
            final(self).wf(),
            final(self)@ == old(self)@.union(other@),
    {
        let ghost start = self@;
        let mut i: usize = 0;
        while i < other.edges.len()
            invariant
                self.wf(),
                i <= other.edges@.len(),
                self@ == start.union(Set::new(|e: EdgeModel| exists|j: int| 0 <= j < i && edge_model(other.edges@[j]) == e)),
            decreases other.edges@.len() - i,
        {
            let ghost prev = self@;
            let edge = &other.edges[i];
            let key = NFAInput::new(edge.key.input.clone(), edge.key.current_state);
            self.connect(key, edge.next);
            proof {
                assert(self@ =~= start.union(Set::new(|e: EdgeModel| exists|j: int| 0 <= j < i + 1 && edge_model(other.edges@[j]) == e))) by {
                    assert forall|e: EdgeModel| (exists|j: int| 0 <= j < i + 1 && edge_model(other.edges@[j]) == e) implies
                        prev.insert(edge_model(other.edges@[i as int])).contains(e) by {
                        let j = choose|j: int| 0 <= j < i + 1 && edge_model(other.edges@[j]) == e;
                        if j < i {
                            assert(prev.contains(e));
                        }
                    }
                }
            }
            i = i + 1;
        }
        assert(self@ =~= start.union(other@));
    }

    /// A copy holding the same edges.
    pub fn copy(&self) -> (r: TransitionMap)
        requires
            self.wf(),
        ensures
            r.wf(),
            r@ == self@,
    {
        let mut r = TransitionMap::new();
        r.extend(self);
        assert(r@ =~= self@);
        r
    }

    /// The states reached from `from` by one edge labelled `symbol`; empty where there is none.
    pub fn lookup(&self, symbol: &String, from: State) -> (r: StateSet)
        ensures
            r.wf(),
            r@ == targets(self@, symbol@, from@),
    {
        let mut r = StateSet::new();
        let mut i: usize = 0;
        while i < self.edges.len()
            invariant
                r.wf(),
                i <= self.edges@.len(),
                r@ == Set::new(|t: nat| exists|j: int| 0 <= j < i && edge_model(self.edges@[j]) == (symbol@, from@, t)),
            decreases self.edges@.len() - i,
        {
            let ghost prev = r@;
            let edge = &self.edges[i];
            if edge.key.current_state.id == from.id && edge.key.input == *symbol {
                r.insert(edge.next);
            }
            proof {
                assert(r@ =~= Set::new(|t: nat| exists|j: int| 0 <= j < i + 1 && edge_model(self.edges@[j]) == (symbol@, from@, t))) by {
                    assert forall|t: nat| (exists|j: int| 0 <= j < i + 1 && edge_model(self.edges@[j]) == (symbol@, from@, t)) implies
                        r@.contains(t) by {
                        let j = choose|j: int| 0 <= j < i + 1 && edge_model(self.edges@[j]) == (symbol@, from@, t);
                        if j < i {
                            assert(prev.contains(t));
                        }
                    }
                }
            }
            i = i + 1;
        }
        assert(r@ =~= targets(self@, symbol@, from@)) by {
            assert forall|t: nat| targets(self@, symbol@, from@).contains(t) implies r@.contains(t) by {
                let j = choose|j: int| 0 <= j < self.edges@.len() && edge_model(self.edges@[j]) == (symbol@, from@, t);
            }
        }
        r
    }
}

} // verus!
