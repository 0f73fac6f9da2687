use vstd::prelude::*;

use super::fragment::{FragmentModel, NFAFragment};
use super::Context;
use crate::automaton::state_set::StateSet;
use crate::automaton::transition::{EdgeModel, NFAInput};
use crate::error::RegexError;

verus! {

/// The kinds of tree node, used to ask for a node by kind.
#[derive(Debug, Clone, Copy, PartialEq, Eq, Structural)]
pub enum NodeKind {
    Char,
    Union,
    Concat,
    Star,
}

/// A pattern tree.
#[derive(Debug)]
pub enum NewNode {
    Char(CharacterNode),
    Union(UnionNode),
    Concat(ConcatNode),
    Star(StarNode),
}

/// A literal symbol; the empty symbol stands for the empty sequence.
#[derive(Debug)]
pub struct CharacterNode {
    pub ch: String,
}

/// Either of two patterns.
#[derive(Debug)]
pub struct UnionNode {
    pub left: Box<NewNode>,
    pub right: Box<NewNode>,
}

/// One pattern followed by another.
#[derive(Debug)]
pub struct ConcatNode {
    pub left: Box<NewNode>,
    pub right: Box<NewNode>,
}

/// Zero or more repetitions of a pattern.
#[derive(Debug)]
pub struct StarNode {
    pub origin: Box<NewNode>,
}

/// The mathematical content of a pattern tree.
pub enum Pattern {
    Literal(Seq<char>),
    Union(Box<Pattern>, Box<Pattern>),
    Concat(Box<Pattern>, Box<Pattern>),
    Star(Box<Pattern>),
}

/// The pattern a tree stands for: its literals read as sequences of characters.
pub open spec fn pattern_of(node: NewNode) -> Pattern
    decreases node,
{
    match node {
        NewNode::Char(c) => Pattern::Literal(c.ch@),
        NewNode::Union(u) => Pattern::Union(Box::new(pattern_of(*u.left)), Box::new(pattern_of(*u.right))),
        NewNode::Concat(c) => Pattern::Concat(Box::new(pattern_of(*c.left)), Box::new(pattern_of(*c.right))),
        NewNode::Star(s) => Pattern::Star(Box::new(pattern_of(*s.origin))),
    }
}

impl View for NewNode {
    type V = Pattern;

    open spec fn view(&self) -> Pattern {
        pattern_of(*self)
    }
}

/// The empty label of epsilon edges.
pub open spec fn epsilon() -> Seq<char> {
    Seq::empty()
}

/// Epsilon edges from each member of `from` to `to`.
pub open spec fn eps_links(from: Set<nat>, to: nat) -> Set<EdgeModel> {
    Set::new(|e: EdgeModel| e.0 == epsilon() && from.contains(e.1) && e.2 == to)
}

/// Thompson's construction: the fragment built for `node` when the first free id is `next`,
/// and the first free id afterwards.
pub open spec fn thompson(node: Pattern, next: nat) -> (FragmentModel, nat)
    decreases node,
{
    match node {
        Pattern::Literal(c) => (
            FragmentModel {
                start: next,
                accepts: set![next + 1],
                edges: set![(c, next, next + 1)],
            },
            next + 2,
        ),
        Pattern::Union(left, right) => {
            let (l, n1) = thompson(*left, next);
            let (r, n2) = thompson(*right, n1);
            (
                FragmentModel {
                    start: n2,
                    accepts: l.accepts.union(r.accepts),
                    edges: l.edges.union(r.edges).insert((epsilon(), n2, l.start)).insert(
                        (epsilon(), n2, r.start),
                    ),
                },
                n2 + 1,
            )
        },
        Pattern::Concat(left, right) => {
            let (l, n1) = thompson(*left, next);
            let (r, n2) = thompson(*right, n1);
            (
                FragmentModel {
                    start: l.start,
                    accepts: r.accepts,
                    edges: l.edges.union(r.edges).union(eps_links(l.accepts, r.start)),
                },
                n2,
            )
        },
        Pattern::Star(origin) => {
            let (x, n1) = thompson(*origin, next);
            (
                FragmentModel {
                    start: n1,
                    accepts: x.accepts.insert(n1),
                    edges: x.edges.union(eps_links(x.accepts, x.start)).insert((epsilon(), n1, x.start)),
                },
                n1 + 1,
            )
        },
    }
}

/// The number of state ids that Thompson's construction allocates for `node`.
pub open spec fn allocations(node: Pattern) -> nat
    decreases node,
{
    match node {
        Pattern::Literal(_) => 2,
        Pattern::Union(left, right) => allocations(*left) + allocations(*right) + 1,
        Pattern::Concat(left, right) => allocations(*left) + allocations(*right),
        Pattern::Star(origin) => allocations(*origin) + 1,
    }
}

/// Every state that a fragment mentions: its start, its accepting states, and both ends of
/// each edge.
pub open spec fn fragment_states(m: FragmentModel) -> Set<nat> {
    Set::new(
        |q: nat|
            q == m.start || m.accepts.contains(q) || exists|e: EdgeModel|
                #[trigger] m.edges.contains(e) && (e.1 == q || e.2 == q),
    )
}

/// The ids `lo`, `lo + 1`, ..., `hi - 1`.
pub open spec fn id_range(lo: nat, hi: nat) -> Set<nat> {
    Set::new(|q: nat| lo <= q < hi)
}

/// State ids are never shared: compiling `node` from the first free id `next` allocates
/// `allocations(node)` ids, and the states of the result are exactly the contiguous range of
/// ids allocated, `next` up to the first free id afterwards.
pub proof fn lemma_ids_contiguous(node: Pattern, next: nat)
    ensures
        thompson(node, next).1 == next + allocations(node),
        fragment_states(thompson(node, next).0) == id_range(next, thompson(node, next).1),
        exists|e: EdgeModel| #[trigger] thompson(node, next).0.edges.contains(e) && e.1 == thompson(node, next).0.start,
    decreases node,
{
    let (m, end) = thompson(node, next);
    match node {
        Pattern::Literal(c) => {
            assert(m.edges.contains((c, next, next + 1)));
            assert(fragment_states(m) =~= id_range(next, end)) by {
                assert forall|q: nat| fragment_states(m).contains(q) implies id_range(next, end).contains(q) by {
                    if !(q == m.start || m.accepts.contains(q)) {
                        let e = choose|e: EdgeModel| #[trigger] m.edges.contains(e) && (e.1 == q || e.2 == q);
                    }
                }
            }
        },
        Pattern::Union(left, right) => {
            lemma_ids_contiguous(*left, next);
            let (l, n1) = thompson(*left, next);
            lemma_ids_contiguous(*right, n1);
            let (r, n2) = thompson(*right, n1);
            assert(m.edges.contains((epsilon(), n2, l.start)));
            assert(fragment_states(l).contains(l.start));
            assert(fragment_states(r).contains(r.start));
            assert(fragment_states(m) =~= id_range(next, end)) by {
                assert forall|q: nat| fragment_states(m).contains(q) implies id_range(next, end).contains(q) by {
                    if l.accepts.contains(q) {
                        assert(fragment_states(l).contains(q));
                    } else if r.accepts.contains(q) {
                        assert(fragment_states(r).contains(q));
                    } else if q != m.start {
                        let e = choose|e: EdgeModel| #[trigger] m.edges.contains(e) && (e.1 == q || e.2 == q);
                        if l.edges.contains(e) {
                            assert(fragment_states(l).contains(q));
                        } else if r.edges.contains(e) {
                            assert(fragment_states(r).contains(q));
                        }
                    }
                }
                assert forall|q: nat| id_range(next, end).contains(q) implies fragment_states(m).contains(q) by {
                    if q < n1 {
                        assert(fragment_states(l).contains(q));
                        if !(q == l.start || l.accepts.contains(q)) {
                            let e = choose|e: EdgeModel| #[trigger] l.edges.contains(e) && (e.1 == q || e.2 == q);
                            assert(m.edges.contains(e));
                        }
                    } else if q < n2 {
                        assert(fragment_states(r).contains(q));
                        if !(q == r.start || r.accepts.contains(q)) {
                            let e = choose|e: EdgeModel| #[trigger] r.edges.contains(e) && (e.1 == q || e.2 == q);
                            assert(m.edges.contains(e));
                        } else if q == r.start {
                            assert(m.edges.contains((epsilon(), n2, r.start)));
                        }
                    } else {
                        assert(q == m.start);
                    }
                }
            }
        },
        Pattern::Concat(left, right) => {
            lemma_ids_contiguous(*left, next);
            let (l, n1) = thompson(*left, next);
            lemma_ids_contiguous(*right, n1);
            let (r, n2) = thompson(*right, n1);
            let el = choose|e: EdgeModel| #[trigger] l.edges.contains(e) && e.1 == l.start;
            assert(m.edges.contains(el));
            let er = choose|e: EdgeModel| #[trigger] r.edges.contains(e) && e.1 == r.start;
            assert(m.edges.contains(er));
            assert(fragment_states(l).contains(l.start));
            assert(fragment_states(r).contains(r.start));
            assert(fragment_states(m) =~= id_range(next, end)) by {
                assert forall|q: nat| fragment_states(m).contains(q) implies id_range(next, end).contains(q) by {
                    if r.accepts.contains(q) {
                        assert(fragment_states(r).contains(q));
                    } else if q != m.start {
                        let e = choose|e: EdgeModel| #[trigger] m.edges.contains(e) && (e.1 == q || e.2 == q);
                        if l.edges.contains(e) {
                            assert(fragment_states(l).contains(q));
                        } else if r.edges.contains(e) {
                            assert(fragment_states(r).contains(q));
                        } else {
                            assert(eps_links(l.accepts, r.start).contains(e));
                            if e.1 == q {
                                assert(fragment_states(l).contains(q));
                            }
                        }
                    }
                }
                assert forall|q: nat| id_range(next, end).contains(q) implies fragment_states(m).contains(q) by {
                    if q < n1 {
                        assert(fragment_states(l).contains(q));
                        if l.accepts.contains(q) {
                            assert(m.edges.contains((epsilon(), q, r.start)));
                        } else if q != l.start {
                            let e = choose|e: EdgeModel| #[trigger] l.edges.contains(e) && (e.1 == q || e.2 == q);
                            assert(m.edges.contains(e));
                        }
                    } else {
                        assert(fragment_states(r).contains(q));
                        if !(q == r.start || r.accepts.contains(q)) {
                            let e = choose|e: EdgeModel| #[trigger] r.edges.contains(e) && (e.1 == q || e.2 == q);
                            assert(m.edges.contains(e));
                        }
                    }
                }
            }
        },
        Pattern::Star(origin) => {
            lemma_ids_contiguous(*origin, next);
            let (x, n1) = thompson(*origin, next);
            assert(m.edges.contains((epsilon(), n1, x.start)));
            assert(fragment_states(x).contains(x.start));
            assert(fragment_states(m) =~= id_range(next, end)) by {
                assert forall|q: nat| fragment_states(m).contains(q) implies id_range(next, end).contains(q) by {
                    if x.accepts.contains(q) {
                        assert(fragment_states(x).contains(q));
                    } else if q != m.start && q != n1 {
                        let e = choose|e: EdgeModel| #[trigger] m.edges.contains(e) && (e.1 == q || e.2 == q);
                        if x.edges.contains(e) {
                            assert(fragment_states(x).contains(q));
                        } else if eps_links(x.accepts, x.start).contains(e) {
                            if e.1 == q {
                                assert(fragment_states(x).contains(q));
                            }
                        }
                    }
                }
                assert forall|q: nat| id_range(next, end).contains(q) implies fragment_states(m).contains(q) by {
                    if q < n1 {
                        assert(fragment_states(x).contains(q));
                        if !(q == x.start || x.accepts.contains(q)) {
                            let e = choose|e: EdgeModel| #[trigger] x.edges.contains(e) && (e.1 == q || e.2 == q);
                            assert(m.edges.contains(e));
                        }
                    }
                }
            }
        },
    }
}

impl NewNode {
    /// A node of the given kind from its parts: `ch` for a literal, `left` and `right` for a
    /// union or a concatenation, `left` for a repetition. An internal-invariant error where a
    /// part that the kind requires is missing; parts that it does not use are dropped.
    pub fn new(kind: NodeKind, ch: Option<String>, left: Option<NewNode>, right: Option<NewNode>) -> (r:
        Result<NewNode, RegexError>)
        ensures
            match kind {
                NodeKind::Char => match ch {
                    Some(c) => r == Ok::<NewNode, RegexError>(NewNode::Char(CharacterNode { ch: c })),
                    None => r == Err::<NewNode, RegexError>(RegexError::InternalInvariantError),
                },
                NodeKind::Union => match (left, right) {
                    (Some(l), Some(rt)) => r == Ok::<NewNode, RegexError>(
                        NewNode::Union(UnionNode { left: Box::new(l), right: Box::new(rt) }),
                    ),
                    _ => r == Err::<NewNode, RegexError>(RegexError::InternalInvariantError),
                },
                NodeKind::Concat => match (left, right) {
                    (Some(l), Some(rt)) => r == Ok::<NewNode, RegexError>(
                        NewNode::Concat(ConcatNode { left: Box::new(l), right: Box::new(rt) }),
                    ),
                    _ => r == Err::<NewNode, RegexError>(RegexError::InternalInvariantError),
                },
                NodeKind::Star => match left {
                    Some(l) => r == Ok::<NewNode, RegexError>(NewNode::Star(StarNode { origin: Box::new(l) })),
                    None => r == Err::<NewNode, RegexError>(RegexError::InternalInvariantError),
                },
            },
    {
        match kind {
            NodeKind::Char => match ch {
                Some(c) => Ok(NewNode::Char(CharacterNode { ch: c })),
                None => Err(RegexError::InternalInvariantError),
            },
            NodeKind::Union => match (left, right) {
                (Some(l), Some(rt)) => Ok(NewNode::Union(UnionNode { left: Box::new(l), right: Box::new(rt) })),
                _ => Err(RegexError::InternalInvariantError),
            },
            NodeKind::Concat => match (left, right) {
                (Some(l), Some(rt)) => Ok(NewNode::Concat(ConcatNode { left: Box::new(l), right: Box::new(rt) })),
                _ => Err(RegexError::InternalInvariantError),
            },
            NodeKind::Star => match left {
                Some(l) => Ok(NewNode::Star(StarNode { origin: Box::new(l) })),
                None => Err(RegexError::InternalInvariantError),
            },
        }
    }
}

/// A pattern tree that compiles to a fragment by Thompson's construction.
pub trait Interpreter {
    /// The tree this value stands for.
    spec fn tree(&self) -> NewNode;

    /// Builds the fragment for this tree, drawing fresh ids from `context`.
    fn assemble(&self, context: &mut Context) -> (r: NFAFragment)
        requires
            old(context).current_state + allocations(self.tree()@) <= usize::MAX,
        ensures
            r.wf(),
            r.models(thompson(self.tree()@, old(context).current_state as nat).0),
            final(context).current_state == thompson(self.tree()@, old(context).current_state as nat).1,
            final(context).current_state == old(context).current_state + allocations(self.tree()@),
    ;
}

impl Interpreter for NewNode {
    open spec fn tree(&self) -> NewNode {
        *self
    }

    fn assemble(&self, context: &mut Context) -> (r: NFAFragment) {
        assemble_node(self, context)
    }
}

impl Interpreter for CharacterNode {
    open spec fn tree(&self) -> NewNode {
        NewNode::Char(*self)
    }

    fn assemble(&self, context: &mut Context) -> (r: NFAFragment) {
        assemble_char(self, context)
    }
}

impl Interpreter for UnionNode {
    open spec fn tree(&self) -> NewNode {
        NewNode::Union(*self)
    }

    fn assemble(&self, context: &mut Context) -> (r: NFAFragment) {
        assemble_union(self, context)
    }
}

impl Interpreter for ConcatNode {
    open spec fn tree(&self) -> NewNode {
        NewNode::Concat(*self)
    }

    fn assemble(&self, context: &mut Context) -> (r: NFAFragment) {
        assemble_concat(self, context)
    }
}

impl Interpreter for StarNode {
    open spec fn tree(&self) -> NewNode {
        NewNode::Star(*self)
    }

    fn assemble(&self, context: &mut Context) -> (r: NFAFragment) {
        assemble_star(self, context)
    }
}

// The recursion of the construction runs through the functions below, so that its
// termination follows from the tree getting smaller.
fn assemble_node(node: &NewNode, context: &mut Context) -> (r: NFAFragment)
    requires
        old(context).current_state + allocations(node@) <= usize::MAX,
    ensures
        r.wf(),
        r.models(thompson(node@, old(context).current_state as nat).0),
        final(context).current_state == thompson(node@, old(context).current_state as nat).1,
        final(context).current_state == old(context).current_state + allocations(node@),
    decreases node,
{
    match node {
        NewNode::Char(n) => assemble_char(n, context),
        NewNode::Union(n) => assemble_union(n, context),
        NewNode::Concat(n) => assemble_concat(n, context),
        NewNode::Star(n) => assemble_star(n, context),
    }
}

/// A literal: a fresh start and a fresh accepting state, joined by an edge labelled `ch`.
fn assemble_char(node: &CharacterNode, context: &mut Context) -> (r: NFAFragment)
    requires
        old(context).current_state + 2 <= usize::MAX,
    ensures
        r.wf(),
        r.models(thompson(NewNode::Char(*node)@, old(context).current_state as nat).0),
        final(context).current_state == thompson(NewNode::Char(*node)@, old(context).current_state as nat).1,
        final(context).current_state == old(context).current_state + allocations(NewNode::Char(*node)@),
{
    let start = context.new_state();
    let accept = context.new_state();
    let mut accepts = StateSet::new();
    accepts.insert(accept);
    let mut fragment = NFAFragment::new(start, accepts, None);
    fragment.connect(NFAInput::new(node.ch.clone(), start), accept);
    proof {
        let m = thompson(NewNode::Char(*node)@, start@).0;
        assert(fragment.accepts.unwrap()@ =~= m.accepts);
        assert(fragment.map@ =~= m.edges);
    }
    fragment
}

/// Either of two fragments: a fresh start with epsilon edges to both starts.
fn assemble_union(node: &UnionNode, context: &mut Context) -> (r: NFAFragment)
    requires
        old(context).current_state + allocations(NewNode::Union(*node)@) <= usize::MAX,
    ensures
        r.wf(),
        r.models(thompson(NewNode::Union(*node)@, old(context).current_state as nat).0),
        final(context).current_state == thompson(NewNode::Union(*node)@, old(context).current_state as nat).1,
        final(context).current_state == old(context).current_state + allocations(NewNode::Union(*node)@),
    decreases node,
{
    proof {
        lemma_ids_contiguous(NewNode::Union(*node)@, old(context).current_state as nat);
    }
    let left = assemble_node(&node.left, context);
    let right = assemble_node(&node.right, context);
    let left_start = left.start.unwrap();
    let right_start = right.start.unwrap();
    let mut accepts = StateSet::new();
    match &left.accepts {
        Some(a) => accepts.extend(a),
        None => {},
    }
    match &right.accepts {
        Some(a) => accepts.extend(a),
        None => {},
    }
    let start = context.new_state();
    let mut fragment = NFAFragment::new(start, accepts, None);
    fragment.union(&left);
    fragment.union(&right);
    fragment.connect(NFAInput::new(String::new(), start), left_start);
    fragment.connect(NFAInput::new(String::new(), start), right_start);
    proof {
        let m = thompson(NewNode::Union(*node)@, old(context).current_state as nat).0;
        assert(fragment.accepts.unwrap()@ =~= m.accepts);
        assert(fragment.map@ =~= m.edges);
    }
    fragment
}

/// One fragment after another: epsilon edges from each accepting state of the first to the
/// start of the second.
fn assemble_concat(node: &ConcatNode, context: &mut Context) -> (r: NFAFragment)
    requires
        old(context).current_state + allocations(NewNode::Concat(*node)@) <= usize::MAX,
    ensures
        r.wf(),
        r.models(thompson(NewNode::Concat(*node)@, old(context).current_state as nat).0),
        final(context).current_state == thompson(NewNode::Concat(*node)@, old(context).current_state as nat).1,
        final(context).current_state == old(context).current_state + allocations(NewNode::Concat(*node)@),
    decreases node,
{
    proof {
        lemma_ids_contiguous(NewNode::Concat(*node)@, old(context).current_state as nat);
    }
    let left = assemble_node(&node.left, context);
    let right = assemble_node(&node.right, context);
    let NFAFragment { start: left_start, accepts: left_accepts, map: left_map } = left;
    let NFAFragment { start: right_start, accepts: right_accepts, map: right_map } = right;
    let left_accepts = left_accepts.unwrap();
    let right_start = right_start.unwrap();
    let mut fragment = NFAFragment::new(left_start.unwrap(), right_accepts.unwrap(), Some(left_map));
    fragment.map.extend(&right_map);
    let ghost base = fragment.map@;
    let mut i: usize = 0;
    while i < left_accepts.len()
        invariant
            fragment.wf(),
            fragment.start == Some(left_start.unwrap()),
            fragment.accepts == Some(right_accepts.unwrap()),
            i <= left_accepts.elems().len(),
            fragment.map@ == base.union(
                Set::new(|e: EdgeModel| e.0 == epsilon() && e.2 == right_start@
                    && exists|j: int| 0 <= j < i && (#[trigger] left_accepts.elems()[j])@ == e.1),
            ),
        decreases left_accepts.elems().len() - i,
    {
        let accept = left_accepts.get(i);
        let ghost prev = fragment.map@;
        fragment.connect(NFAInput::new(String::new(), accept), right_start);
        proof {
            let next_links = Set::new(|e: EdgeModel| e.0 == epsilon() && e.2 == right_start@
                && exists|j: int| 0 <= j < i + 1 && (#[trigger] left_accepts.elems()[j])@ == e.1);
            assert(fragment.map@ =~= base.union(next_links)) by {
                assert forall|e: EdgeModel| base.union(next_links).contains(e) implies fragment.map@.contains(e) by {
                    if next_links.contains(e) && !base.contains(e) {
                        let j = choose|j: int| 0 <= j < i + 1 && (#[trigger] left_accepts.elems()[j])@ == e.1;
                        if j < i {
                            assert(prev.contains(e));
                        } else {
                            assert(e == (epsilon(), accept@, right_start@));
                        }
                    }
                }
                assert forall|e: EdgeModel| fragment.map@.contains(e) implies base.union(next_links).contains(e) by {
                    if e == (epsilon(), accept@, right_start@) {
                        assert(left_accepts.elems()[i as int]@ == e.1);
                        assert(next_links.contains(e));
                    } else if prev.contains(e) && !base.contains(e) {
                        let j = choose|j: int| 0 <= j < i && (#[trigger] left_accepts.elems()[j])@ == e.1;
                        assert(next_links.contains(e));
                    }
                }
            }
        }
        i = i + 1;
    }
    proof {
        let m = thompson(NewNode::Concat(*node)@, old(context).current_state as nat).0;
        let (l, n1) = thompson(node.left@, old(context).current_state as nat);
        left_accepts.lemma_view_elems();
        assert(fragment.map@ =~= m.edges) by {
            assert forall|e: EdgeModel| eps_links(l.accepts, right_start@).contains(e) implies fragment.map@.contains(e) by {
                let j = choose|j: int| 0 <= j < left_accepts.elems().len() && left_accepts.elems()[j]@ == e.1;
                assert((#[trigger] left_accepts.elems()[j])@ == e.1);
            }
        }
    }
    fragment
}

/// Repetition: a fresh accepting start with an epsilon edge into the fragment, and epsilon
/// edges from each accepting state of the fragment back to its start.
fn assemble_star(node: &StarNode, context: &mut Context) -> (r: NFAFragment)
    requires
        old(context).current_state + allocations(NewNode::Star(*node)@) <= usize::MAX,
    ensures
        r.wf(),
        r.models(thompson(NewNode::Star(*node)@, old(context).current_state as nat).0),
        final(context).current_state == thompson(NewNode::Star(*node)@, old(context).current_state as nat).1,
        final(context).current_state == old(context).current_state + allocations(NewNode::Star(*node)@),
    decreases node,
{
    proof {
        lemma_ids_contiguous(NewNode::Star(*node)@, old(context).current_state as nat);
    }
    let origin = assemble_node(&node.origin, context);
    let start = context.new_state();
    let origin_start = origin.start.unwrap();
    let origin_accepts = match &origin.accepts {
        Some(a) => a.copy(),
        None => StateSet::new(),
    };
    let mut accepts = origin_accepts.copy();
    accepts.insert(start);
    let mut fragment = origin.new_skeleton();
    fragment.start = Some(start);
    fragment.accepts = Some(accepts);
    let ghost base = fragment.map@;
    let mut i: usize = 0;
    while i < origin_accepts.len()
        invariant
            fragment.wf(),
            fragment.start == Some(start),
            fragment.accepts == Some(accepts),
            i <= origin_accepts.elems().len(),
            fragment.map@ == base.union(
                Set::new(|e: EdgeModel| e.0 == epsilon() && e.2 == origin_start@
                    && exists|j: int| 0 <= j < i && (#[trigger] origin_accepts.elems()[j])@ == e.1),
            ),
        decreases origin_accepts.elems().len() - i,
    {
        let accept = origin_accepts.get(i);
        let ghost prev = fragment.map@;
        fragment.connect(NFAInput::new(String::new(), accept), origin_start);
        proof {
            let next_links = Set::new(|e: EdgeModel| e.0 == epsilon() && e.2 == origin_start@
                && exists|j: int| 0 <= j < i + 1 && (#[trigger] origin_accepts.elems()[j])@ == e.1);
            assert(fragment.map@ =~= base.union(next_links)) by {
                assert forall|e: EdgeModel| base.union(next_links).contains(e) implies fragment.map@.contains(e) by {
                    if next_links.contains(e) && !base.contains(e) {
                        let j = choose|j: int| 0 <= j < i + 1 && (#[trigger] origin_accepts.elems()[j])@ == e.1;
                        if j < i {
                            assert(prev.contains(e));
                        } else {
                            assert(e == (epsilon(), accept@, origin_start@));
                        }
                    }
                }
                assert forall|e: EdgeModel| fragment.map@.contains(e) implies base.union(next_links).contains(e) by {
                    if e == (epsilon(), accept@, origin_start@) {
                        assert(origin_accepts.elems()[i as int]@ == e.1);
                        assert(next_links.contains(e));
                    } else if prev.contains(e) && !base.contains(e) {
                        let j = choose|j: int| 0 <= j < i && (#[trigger] origin_accepts.elems()[j])@ == e.1;
                        assert(next_links.contains(e));
                    }
                }
            }
        }
        i = i + 1;
    }
    let ghost looped = fragment.map@;
    fragment.connect(NFAInput::new(String::new(), start), origin_start);
    proof {
        let m = thompson(NewNode::Star(*node)@, old(context).current_state as nat).0;
        let (x, n1) = thompson(node.origin@, old(context).current_state as nat);
        origin_accepts.lemma_view_elems();
        assert(fragment.accepts.unwrap()@ =~= m.accepts);
        assert(looped =~= x.edges.union(eps_links(x.accepts, x.start))) by {
            assert forall|e: EdgeModel| eps_links(x.accepts, x.start).contains(e) implies looped.contains(e) by {
                let j = choose|j: int| 0 <= j < origin_accepts.elems().len() && origin_accepts.elems()[j]@ == e.1;
                assert((#[trigger] origin_accepts.elems()[j])@ == e.1);
            }
        }
        assert(fragment.map@ =~= m.edges);
    }
    fragment
}

} // verus!
