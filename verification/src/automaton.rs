//! The automaton data model: states, transitions, and the graph itself.

use vstd::prelude::*;

verus! {

/// A node of the automaton: a display name (not required to be unique)
/// and a flag telling whether ending a run here accepts the input.
#[derive(Clone, Debug)]
pub struct State {
    pub name: String,
    pub is_accepting: bool,
}

/// The payload of an edge: the single alphabet symbol that labels it.
#[derive(Clone, Debug)]
pub struct Transition {
    pub symbol: char,
}

/// A directed labeled edge, stored with index-based endpoints.
#[derive(Clone, Copy, Debug)]
pub struct Edge {
    pub src: usize,
    pub dst: usize,
    pub symbol: char,
}

/// A finite automaton: an arena of states plus a list of labeled edges.
///
/// State 0 (insertion order) is the implicit start state. Edges are kept
/// in insertion order, and every consumer that searches for a matching
/// edge tries them in that order. The structure is built once by a
/// builder and only ever read afterwards.
pub struct Automaton {
    states: Vec<State>,
    edges: Vec<Edge>,
}

impl Automaton {
    /// The states, in insertion order, as seen by specifications.
    pub closed spec fn states_seq(self) -> Seq<State> {
        self.states@
    }

    /// The edges, in insertion order, as seen by specifications.
    pub closed spec fn edges_seq(self) -> Seq<Edge> {
        self.edges@
    }

    /// Well-formedness: there is a start state, and every edge points at
    /// existing states.
    pub open spec fn wf(self) -> bool {
        &&& self.states_seq().len() >= 1
        &&& forall|k: int|
            0 <= k < self.edges_seq().len() ==> {
                &&& (#[trigger] self.edges_seq()[k]).src < self.states_seq().len()
                &&& self.edges_seq()[k].dst < self.states_seq().len()
            }
    }

    /// An empty automaton, to be populated by a builder.
    pub fn new() -> (a: Automaton)
        ensures
            a.states_seq() == Seq::<State>::empty(),
            a.edges_seq() == Seq::<Edge>::empty(),
    {
        Automaton { states: Vec::new(), edges: Vec::new() }
    }

    /// Appends a state and returns its index.
    pub fn add_node(&mut self, s: State) -> (idx: usize)
        ensures
            final(self).states_seq() == old(self).states_seq().push(s),
            final(self).edges_seq() == old(self).edges_seq(),
            idx == old(self).states_seq().len(),
    {
        let idx = self.states.len();
        self.states.push(s);
        idx
    }

    /// Appends a directed edge labeled with the given transition symbol.
    /// Both endpoints must already exist.
    pub fn add_edge(&mut self, src: usize, dst: usize, t: Transition)
        requires
            src < old(self).states_seq().len(),
            dst < old(self).states_seq().len(),
        ensures
            final(self).states_seq() == old(self).states_seq(),
            final(self).edges_seq() == old(self).edges_seq().push(
                Edge { src, dst, symbol: t.symbol },
            ),
    {
        self.edges.push(Edge { src, dst, symbol: t.symbol });
    }

    /// The number of states.
    pub fn node_count(&self) -> (n: usize)
        ensures
            n == self.states_seq().len(),
    {
        self.states.len()
    }

    /// The number of edges.
    pub fn edge_count(&self) -> (n: usize)
        ensures
            n == self.edges_seq().len(),
    {
        self.edges.len()
    }

    /// Read access to one state.
    pub fn node(&self, idx: usize) -> (s: &State)
        requires
            idx < self.states_seq().len(),
        ensures
            *s == self.states_seq()[idx as int],
    {
        &self.states[idx]
    }

    /// Read access to one edge.
    pub fn edge(&self, k: usize) -> (e: Edge)
        requires
            k < self.edges_seq().len(),
        ensures
            e == self.edges_seq()[k as int],
    {
        self.edges[k]
    }
}

} // verus!
