//! Builders for the three example automata.
//!
//! Each builder is a pure constructor: it takes no input and returns a
//! fully formed automaton whose exact states and edges are pinned down
//! by its contract. No intermediate state is visible to callers.

use vstd::prelude::*;

use crate::automaton::Automaton;
use crate::automaton::Edge;
use crate::automaton::State;
use crate::automaton::Transition;

verus! {

/// The edges of the simple three-state automaton, in insertion order.
pub open spec fn simple_edges() -> Seq<Edge> {
    seq![
        Edge { src: 0, dst: 1, symbol: 'a' },
        Edge { src: 1, dst: 2, symbol: 'b' },
        Edge { src: 2, dst: 0, symbol: 'a' },
        Edge { src: 2, dst: 1, symbol: 'b' },
    ]
}

/// The shape of the simple automaton: three states of which only
/// state 2 accepts, and the four edges above.
pub open spec fn is_simple_automaton(a: Automaton) -> bool {
    &&& a.states_seq().len() == 3
    &&& !a.states_seq()[0].is_accepting
    &&& !a.states_seq()[1].is_accepting
    &&& a.states_seq()[2].is_accepting
    &&& a.edges_seq() == simple_edges()
}

/// Builds a three-state cycle: `a` then `b` reaches the accepting state.
pub fn build_simple_automaton() -> (a: Automaton)
    ensures
        a.wf(),
        is_simple_automaton(a),
        a.states_seq()[0].name@ == "S0"@,
        a.states_seq()[1].name@ == "S1"@,
        a.states_seq()[2].name@ == "S2"@,
{
    let mut graph = Automaton::new();

    let s0 = graph.add_node(State { name: "S0".to_owned(), is_accepting: false });
    let s1 = graph.add_node(State { name: "S1".to_owned(), is_accepting: false });
    let s2 = graph.add_node(State { name: "S2".to_owned(), is_accepting: true });

    graph.add_edge(s0, s1, Transition { symbol: 'a' });
    graph.add_edge(s1, s2, Transition { symbol: 'b' });
    graph.add_edge(s2, s0, Transition { symbol: 'a' });
    graph.add_edge(s2, s1, Transition { symbol: 'b' });

    proof {
        assert(graph.edges_seq() =~= simple_edges());
    }
    graph
}

/// The edges of the even-`a` parity automaton, in insertion order.
pub open spec fn parity_edges() -> Seq<Edge> {
    seq![
        Edge { src: 0, dst: 1, symbol: 'a' },
        Edge { src: 1, dst: 0, symbol: 'a' },
        Edge { src: 0, dst: 0, symbol: 'b' },
        Edge { src: 1, dst: 1, symbol: 'b' },
    ]
}

/// The shape of the parity automaton: state 0 ("even", accepting) and
/// state 1 ("odd"), toggling on `a` and looping on `b`.
pub open spec fn is_parity_automaton(a: Automaton) -> bool {
    &&& a.states_seq().len() == 2
    &&& a.states_seq()[0].is_accepting
    &&& !a.states_seq()[1].is_accepting
    &&& a.edges_seq() == parity_edges()
}

/// Builds the automaton that accepts strings with an even number of `a`s.
pub fn build_even_a_automaton() -> (a: Automaton)
    ensures
        a.wf(),
        is_parity_automaton(a),
        a.states_seq()[0].name@ == "Even"@,
        a.states_seq()[1].name@ == "Odd"@,
{
    let mut graph = Automaton::new();

    let even_state = graph.add_node(State { name: "Even".to_owned(), is_accepting: true });
    let odd_state = graph.add_node(State { name: "Odd".to_owned(), is_accepting: false });

    graph.add_edge(even_state, odd_state, Transition { symbol: 'a' });
    graph.add_edge(odd_state, even_state, Transition { symbol: 'a' });
    graph.add_edge(even_state, even_state, Transition { symbol: 'b' });
    graph.add_edge(odd_state, odd_state, Transition { symbol: 'b' });

    proof {
        assert(graph.edges_seq() =~= parity_edges());
    }
    graph
}

/// The edges of the substring automaton, in insertion order.
pub open spec fn aba_edges() -> Seq<Edge> {
    seq![
        Edge { src: 0, dst: 1, symbol: 'a' },
        Edge { src: 0, dst: 0, symbol: 'b' },
        Edge { src: 1, dst: 1, symbol: 'a' },
        Edge { src: 1, dst: 2, symbol: 'b' },
        Edge { src: 2, dst: 3, symbol: 'a' },
        Edge { src: 2, dst: 0, symbol: 'b' },
        Edge { src: 3, dst: 3, symbol: 'a' },
        Edge { src: 3, dst: 3, symbol: 'b' },
    ]
}

/// The shape of the substring automaton: states 0..3 record how much of
/// `aba` has just been matched, and only the final state 3 accepts.
pub open spec fn is_aba_automaton(a: Automaton) -> bool {
    &&& a.states_seq().len() == 4
    &&& !a.states_seq()[0].is_accepting
    &&& !a.states_seq()[1].is_accepting
    &&& !a.states_seq()[2].is_accepting
    &&& a.states_seq()[3].is_accepting
    &&& a.edges_seq() == aba_edges()
}

/// Builds the automaton that accepts strings containing `aba`.
pub fn build_contains_aba_automaton() -> (a: Automaton)
    ensures
        a.wf(),
        is_aba_automaton(a),
        a.states_seq()[0].name@ == "S0"@,
        a.states_seq()[1].name@ == "S1"@,
        a.states_seq()[2].name@ == "S2"@,
        a.states_seq()[3].name@ == "S3"@,
{
    let mut graph = Automaton::new();

    let s0 = graph.add_node(State { name: "S0".to_owned(), is_accepting: false });
    let s1 = graph.add_node(State { name: "S1".to_owned(), is_accepting: false });
    let s2 = graph.add_node(State { name: "S2".to_owned(), is_accepting: false });
    let s3 = graph.add_node(State { name: "S3".to_owned(), is_accepting: true });

    graph.add_edge(s0, s1, Transition { symbol: 'a' });
    graph.add_edge(s0, s0, Transition { symbol: 'b' });
    graph.add_edge(s1, s1, Transition { symbol: 'a' });
    graph.add_edge(s1, s2, Transition { symbol: 'b' });
    graph.add_edge(s2, s3, Transition { symbol: 'a' });
    graph.add_edge(s2, s0, Transition { symbol: 'b' });
    graph.add_edge(s3, s3, Transition { symbol: 'a' });
    graph.add_edge(s3, s3, Transition { symbol: 'b' });

    proof {
        assert(graph.edges_seq() =~= aba_edges());
    }
    graph
}

} // verus!
