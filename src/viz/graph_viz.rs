use vstd::prelude::*;
use vstd::string::StringExecFns;

use crate::automaton::nfa::NFA;
use crate::automaton::state_set::StateSet;
use crate::automaton::transition::EdgeModel;

verus! {

/// The decimal digit `d`.
pub open spec fn digit_char(d: nat) -> char {
    if d == 0 {
        '0'
    } else if d == 1 {
        '1'
    } else if d == 2 {
        '2'
    } else if d == 3 {
        '3'
    } else if d == 4 {
        '4'
    } else if d == 5 {
        '5'
    } else if d == 6 {
        '6'
    } else if d == 7 {
        '7'
    } else if d == 8 {
        '8'
    } else {
        '9'
    }
}

/// `n` written in decimal, without leading zeros.
pub open spec fn decimal(n: nat) -> Seq<char>
    decreases n,
{
    if n < 10 {
        seq![digit_char(n)]
    } else {
        decimal(n / 10).push(digit_char(n % 10))
    }
}

pub open spec fn prologue_text() -> Seq<char> {
    "digraph G {\n"@ + "  rankdir = LR;\n"@ + "  node [shape = circle];\n"@
}

pub open spec fn epilogue_text() -> Seq<char> {
    "}"@
}

/// The line that declares state `id`, drawn with two borders when it is accepting.
pub open spec fn node_line(id: nat, is_accept: bool) -> Seq<char> {
    "  "@ + decimal(id) + " [label = \""@ + decimal(id) + "\";shape = \""@ + (if is_accept {
        "doublecircle"@
    } else {
        "circle"@
    }) + "\"];\n"@
}

/// The line that draws the edge from `from` to `to` labelled `label`.
pub open spec fn edge_line(from: nat, to: nat, label: Seq<char>) -> Seq<char> {
    "  "@ + decimal(from) + " -> "@ + decimal(to) + " [label = \""@ + label + "\"];\n"@
}

pub open spec fn nodes_text(ids: Seq<nat>, accepts: Set<nat>) -> Seq<char>
    decreases ids.len(),
{
    if ids.len() == 0 {
        Seq::empty()
    } else {
        nodes_text(ids.drop_last(), accepts) + node_line(ids.last(), accepts.contains(ids.last()))
    }
}

pub open spec fn edges_text(edges: Seq<EdgeModel>) -> Seq<char>
    decreases edges.len(),
{
    if edges.len() == 0 {
        Seq::empty()
    } else {
        edges_text(edges.drop_last()) + edge_line(edges.last().1, edges.last().2, edges.last().0)
    }
}

/// Every state at either end of an edge.
pub open spec fn endpoints(edges: Seq<EdgeModel>) -> Set<nat> {
    Set::new(|q: nat| exists|i: int| 0 <= i < edges.len() && ((#[trigger] edges[i]).1 == q || edges[i].2 == q))
}

/// The description of an automaton in the Graphviz language: every state at an end of an edge
/// in increasing order (`ids`), then every edge, epsilon edges with the empty label.
pub open spec fn graph_text(ids: Seq<nat>, accepts: Set<nat>, edges: Seq<EdgeModel>) -> Seq<char> {
    prologue_text() + nodes_text(ids, accepts) + edges_text(edges) + epilogue_text()
}

/// Writes automata in the Graphviz language.
pub struct GraphViz {}

fn digit_str(d: usize) -> (r: &'static str)
    requires
        d < 10,
    ensures
        r@ == seq![digit_char(d as nat)],
{
    proof {
        reveal_strlit("0");
        reveal_strlit("1");
        reveal_strlit("2");
        reveal_strlit("3");
        reveal_strlit("4");
        reveal_strlit("5");
        reveal_strlit("6");
        reveal_strlit("7");
        reveal_strlit("8");
        reveal_strlit("9");
    }
    if d == 0 {
        "0"
    } else if d == 1 {
        "1"
    } else if d == 2 {
        "2"
    } else if d == 3 {
        "3"
    } else if d == 4 {
        "4"
    } else if d == 5 {
        "5"
    } else if d == 6 {
        "6"
    } else if d == 7 {
        "7"
    } else if d == 8 {
        "8"
    } else {
        "9"
    }
}

/// Appends `n` in decimal.
fn push_decimal(output: &mut String, n: usize)
    ensures
        final(output)@ == old(output)@ + decimal(n as nat),
    decreases n,
{
    if n >= 10 {
        push_decimal(output, n / 10);
    }
    output.append(digit_str(n % 10));
    assert(final(output)@ =~= old(output)@ + decimal(n as nat));
}

impl GraphViz {
    fn add_prologue(&self, output: &mut String)
        ensures
            final(output)@ == old(output)@ + prologue_text(),
    {
        output.append("digraph G {\n");
        output.append("  rankdir = LR;\n");
        output.append("  node [shape = circle];\n");
        assert(final(output)@ =~= old(output)@ + prologue_text());
    }

    fn add_epilogue(&self, output: &mut String)
        ensures
            final(output)@ == old(output)@ + epilogue_text(),
    {
        output.append("}");
    }

    fn add_node(&self, output: &mut String, node_id: usize, is_accept: bool)
        ensures
            final(output)@ == old(output)@ + node_line(node_id as nat, is_accept),
    {
        output.append("  ");
        push_decimal(output, node_id);
        output.append(" [label = \"");
        push_decimal(output, node_id);
        output.append("\";shape = \"");
        if is_accept {
            output.append("doublecircle");
        } else {
            output.append("circle");
        }
        output.append("\"];\n");
        assert(final(output)@ =~= old(output)@ + node_line(node_id as nat, is_accept));
    }

    fn add_edge(&self, output: &mut String, from: usize, to: usize, label: &str)
        ensures
            final(output)@ == old(output)@ + edge_line(from as nat, to as nat, label@),
    {
        output.append("  ");
        push_decimal(output, from);
        output.append(" -> ");
        push_decimal(output, to);
        output.append(" [label = \"");
        output.append(label);
        output.append("\"];\n");
        assert(final(output)@ =~= old(output)@ + edge_line(from as nat, to as nat, label@));
    }

    /// The automaton in the Graphviz language: its states as nodes, accepting ones with two
    /// borders, and its edges labelled with their symbols.
    pub fn render_nfa_graph(&self, nfa: &NFA) -> (r: String)
        ensures
            exists|ids: Seq<nat>| {
                &&& forall|i: int, j: int| 0 <= i < j < ids.len() ==> ids[i] < ids[j]
                &&& ids.to_set() == endpoints(nfa.map.edge_list())
                &&& r@ == graph_text(ids, nfa.accepts@, nfa.map.edge_list())
            },
    {
        let ghost edges = nfa.map.edge_list();
        let mut output = String::new();
        self.add_prologue(&mut output);
        let mut edge_output = String::new();
        let mut node_set = StateSet::new();
        let mut i: usize = 0;
        while i < nfa.map.edge_count()
            invariant
                edges == nfa.map.edge_list(),
                i <= edges.len(),
                output@ == Seq::<char>::empty() + prologue_text(),
                node_set.wf(),
                edge_output@ == edges_text(edges.take(i as int)),
                node_set@ == endpoints(edges.take(i as int)),
            decreases edges.len() - i,
        {
            let (label, from, to) = nfa.map.edge_at(i);
            self.add_edge(&mut edge_output, from.id, to.id, label.as_str());
            node_set.insert(from);
            node_set.insert(to);
            proof {
                let next = edges.take(i + 1);
                assert(next.drop_last() =~= edges.take(i as int));
                assert(next.last() == edges[i as int]);
                assert(node_set@ =~= endpoints(next)) by {
                    assert forall|q: nat| endpoints(next).contains(q) implies node_set@.contains(q) by {
                        let j = choose|j: int| 0 <= j < next.len() && ((#[trigger] next[j]).1 == q || next[j].2 == q);
                        if j < i {
                            assert(edges.take(i as int)[j] == next[j]);
                            assert(endpoints(edges.take(i as int)).contains(q));
                        }
                    }
                    assert forall|q: nat| node_set@.contains(q) implies endpoints(next).contains(q) by {
                        if endpoints(edges.take(i as int)).contains(q) {
                            let j = choose|j: int| 0 <= j < i && ((#[trigger] edges.take(i as int)[j]).1 == q
                                || edges.take(i as int)[j].2 == q);
                            assert(next[j] == edges.take(i as int)[j]);
                        } else {
                            assert(next[i as int] == edges[i as int]);
                            assert(0 <= i < next.len() && ((next[i as int]).1 == q || next[i as int].2 == q));
                        }
                    }
                }
            }
            i = i + 1;
        }
        assert(edges.take(i as int) =~= edges);
        let ghost ids = node_set.elems().map_values(|s: crate::automaton::State| s@);
        let mut j: usize = 0;
        while j < node_set.len()
            invariant
                node_set.wf(),
                ids == node_set.elems().map_values(|s: crate::automaton::State| s@),
                j <= ids.len(),
                output@ == prologue_text() + nodes_text(ids.take(j as int), nfa.accepts@),
            decreases ids.len() - j,
        {
            let state = node_set.get(j);
            let is_accept = nfa.accepts.contains(&state);
            self.add_node(&mut output, state.id, is_accept);
            proof {
                let next = ids.take(j + 1);
                assert(next.drop_last() =~= ids.take(j as int));
                assert(next.last() == state@);
                assert(output@ =~= prologue_text() + nodes_text(next, nfa.accepts@));
            }
            j = j + 1;
        }
        assert(ids.take(j as int) =~= ids);
        output.append(edge_output.as_str());
        self.add_epilogue(&mut output);
        proof {
            node_set.lemma_view_elems();
            assert(ids.to_set() =~= endpoints(edges)) by {
                assert forall|q: nat| ids.to_set().contains(q) implies endpoints(edges).contains(q) by {
                    let k = choose|k: int| 0 <= k < ids.len() && ids[k] == q;
                    assert(node_set@.contains(node_set.elems()[k]@));
                }
                assert forall|q: nat| endpoints(edges).contains(q) implies ids.to_set().contains(q) by {
                    assert(node_set@.contains(q));
                    let k = choose|k: int| 0 <= k < node_set.elems().len() && node_set.elems()[k]@ == q;
                    assert(ids[k] == q);
                }
            }
            assert(output@ =~= graph_text(ids, nfa.accepts@, edges));
        }
        output
    }
}

} // verus!
