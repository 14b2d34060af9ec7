//! The acceptance engine: runs an automaton over an input string.
//!
//! The run starts at state 0 and consumes the input one symbol at a time.
//! At each step the outgoing transitions are tried in edge insertion
//! order and the first one whose symbol matches is taken; if none
//! matches, the string is rejected at once. A string whose symbols are
//! all consumed is accepted exactly when the state reached is accepting.

use vstd::prelude::*;

use crate::automaton::Automaton;
use crate::automaton::Edge;

verus! {

/// The first edge at position `i` or later that leaves state `q` on
/// symbol `c`, as the state it leads to; `None` if there is none.
pub open spec fn step_from(edges: Seq<Edge>, i: int, q: int, c: char) -> Option<int>
    decreases edges.len() - i,
{
    if i < 0 || i >= edges.len() {
        None
    } else if edges[i].src == q && edges[i].symbol == c {
        Some(edges[i].dst as int)
    } else {
        step_from(edges, i + 1, q, c)
    }
}

/// One step of the run: the state reached from `q` on symbol `c` by the
/// first matching edge in insertion order.
pub open spec fn spec_step(edges: Seq<Edge>, q: int, c: char) -> Option<int> {
    step_from(edges, 0, q, c)
}

/// The whole run: the state reached from `q` after consuming `s`, or
/// `None` if some symbol of `s` finds no matching transition.
pub open spec fn run_from(edges: Seq<Edge>, q: int, s: Seq<char>) -> Option<int>
    decreases s.len(),
{
    if s.len() == 0 {
        Some(q)
    } else {
        match spec_step(edges, q, s[0]) {
            Some(q2) => run_from(edges, q2, s.skip(1)),
            None => None,
        }
    }
}

/// Acceptance: the run over the whole input ends in an accepting state.
pub open spec fn spec_accepts(a: Automaton, s: Seq<char>) -> bool {
    match run_from(a.edges_seq(), 0, s) {
        Some(q) => 0 <= q < a.states_seq().len() && a.states_seq()[q].is_accepting,
        None => false,
    }
}

/// A run over `s` factors through any split point `j`: first run the
/// prefix, then run the remainder from the state the prefix reached.
pub proof fn lemma_run_split(edges: Seq<Edge>, q: int, s: Seq<char>, j: int)
    requires
        0 <= j <= s.len(),
    ensures
        run_from(edges, q, s) == (match run_from(edges, q, s.take(j)) {
            Some(m) => run_from(edges, m, s.skip(j)),
            None => None,
        }),
    decreases j,
{
    if j == 0 {
        assert(s.take(0) =~= Seq::<char>::empty());
        assert(s.skip(0) =~= s);
    } else {
        assert(s.take(j)[0] == s[0]);
        match spec_step(edges, q, s[0]) {
            Some(q2) => {
                assert(s.take(j).skip(1) =~= s.skip(1).take(j - 1));
                assert(s.skip(1).skip(j - 1) =~= s.skip(j));
                lemma_run_split(edges, q2, s.skip(1), j - 1);
            },
            None => {},
        }
    }
}

/// Extending the input by one symbol extends the run by one step.
pub proof fn lemma_run_snoc(edges: Seq<Edge>, q: int, s: Seq<char>, c: char)
    ensures
        run_from(edges, q, s.push(c)) == (match run_from(edges, q, s) {
            Some(m) => spec_step(edges, m, c),
            None => None,
        }),
{
    let t = s.push(c);
    assert(t.take(s.len() as int) =~= s);
    lemma_run_split(edges, q, t, s.len() as int);
    match run_from(edges, q, s) {
        Some(m) => {
            let u = seq![c];
            assert(t.skip(s.len() as int) =~= u);
            assert(u[0] == c);
            assert(u.skip(1) =~= Seq::<char>::empty());
            match spec_step(edges, m, c) {
                Some(q2) => {
                    assert(run_from(edges, q2, u.skip(1)) == Some(q2));
                    assert(run_from(edges, m, u) == Some(q2));
                },
                None => {
                    assert(run_from(edges, m, u) is None);
                },
            }
        },
        None => {},
    }
}

/// Decides whether the automaton accepts the input string, walking the
/// graph from the start state with first-matching-transition semantics.
pub fn is_accepted(automaton: &Automaton, input: &str) -> (r: bool)
    requires
        automaton.wf(),
    ensures
        r == spec_accepts(*automaton, input@),
{
    let ghost edges = automaton.edges_seq();
    let ghost n_states = automaton.states_seq().len() as int;
    let len = input.unicode_len();
    let m = automaton.edge_count();
    let mut current: usize = 0;
    let mut i: usize = 0;
    while i < len
        invariant
            automaton.wf(),
            edges == automaton.edges_seq(),
            n_states == automaton.states_seq().len(),
            len == input@.len(),
            m == edges.len(),
            0 <= i <= len,
            current < n_states,
            run_from(edges, 0, input@.take(i as int)) == Some(current as int),
        decreases len - i,
    {
        let c = input.get_char(i);
        let mut j: usize = 0;
        let mut found = false;
        let mut next: usize = 0;
        while j < m && !found
            invariant
                automaton.wf(),
                edges == automaton.edges_seq(),
                n_states == automaton.states_seq().len(),
                m == edges.len(),
                0 <= j <= m,
                !found ==> spec_step(edges, current as int, c) == step_from(
                    edges,
                    j as int,
                    current as int,
                    c,
                ),
                found ==> spec_step(edges, current as int, c) == Some(next as int),
                found ==> next < n_states,
            decreases m - j,
        {
            let e = automaton.edge(j);
            if e.src == current && e.symbol == c {
                found = true;
                next = e.dst;
            }
            j = j + 1;
        }
        proof {
            assert(input@.take(i + 1) =~= input@.take(i as int).push(input@[i as int]));
            lemma_run_snoc(edges, 0, input@.take(i as int), c);
        }
        if !found {
            proof {
                lemma_run_split(automaton.edges_seq(), 0, input@, i + 1);
            }
            return false;
        }
        current = next;
        i = i + 1;
    }
    proof {
        assert(input@.take(len as int) =~= input@);
    }
    automaton.node(current).is_accepting
}

} // verus!
