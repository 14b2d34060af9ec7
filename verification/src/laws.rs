//! Proved laws about the example automata.
//!
//! Each public proof function states, over the specification functions
//! that the builders, the acceptance engine and the structural verifier
//! expose, either the language an example automaton accepts or the
//! structural properties it satisfies.

use vstd::prelude::*;

use crate::acceptance::run_from;
use crate::acceptance::spec_accepts;
use crate::acceptance::spec_step;
use crate::acceptance::step_from;
use crate::automaton::Automaton;
use crate::automaton::Edge;
use crate::builders::aba_edges;
use crate::builders::is_aba_automaton;
use crate::builders::is_parity_automaton;
use crate::builders::is_simple_automaton;
use crate::builders::parity_edges;
use crate::builders::simple_edges;
use crate::checks::edge_between;
use crate::checks::has_outgoing;
use crate::checks::reachable_within;
use crate::checks::spec_all_states_reachable;
use crate::checks::spec_deadlock_free;
use crate::checks::spec_deterministic;
use crate::checks::spec_reachable;
use crate::checks::spec_reachable_accepting;

verus! {

/// All symbols of `s` are drawn from the two-symbol alphabet.
pub open spec fn over_alphabet(s: Seq<char>) -> bool {
    forall|i: int| 0 <= i < s.len() ==> s[i] == 'a' || s[i] == 'b'
}

/// How many `a` symbols `s` holds.
pub open spec fn count_a(s: Seq<char>) -> nat
    decreases s.len(),
{
    if s.len() == 0 {
        0
    } else {
        (if s[0] == 'a' {
            1nat
        } else {
            0nat
        }) + count_a(s.skip(1))
    }
}

/// `s` holds `aba` as a contiguous substring.
pub open spec fn contains_aba(s: Seq<char>) -> bool {
    exists|i: int|
        0 <= i && i + 2 < s.len() && #[trigger] s[i] == 'a' && s[i + 1] == 'b' && s[i + 2] == 'a'
}

/// The empty input is accepted exactly when the start state accepts.
/// This holds of every well-formed automaton, so of all built automata.
pub proof fn lemma_empty_input_acceptance(a: Automaton)
    requires
        a.wf(),
    ensures
        spec_accepts(a, Seq::<char>::empty()) == a.states_seq()[0].is_accepting,
{
    assert(run_from(a.edges_seq(), 0, Seq::<char>::empty()) == Some(0int));
}

/// The single-step results of the parity automaton's transition table.
proof fn lemma_parity_steps()
    ensures
        spec_step(parity_edges(), 0, 'a') == Some(1int),
        spec_step(parity_edges(), 1, 'a') == Some(0int),
        spec_step(parity_edges(), 0, 'b') == Some(0int),
        spec_step(parity_edges(), 1, 'b') == Some(1int),
{
    reveal_with_fuel(step_from, 6);
}

/// Running the parity automaton toggles between its two states once per
/// `a` symbol, so the state reached records the parity of the count.
proof fn lemma_parity_run(s: Seq<char>, q: int)
    requires
        over_alphabet(s),
        q == 0 || q == 1,
    ensures
        run_from(parity_edges(), q, s) == Some(
            if count_a(s) % 2 == 0 {
                q
            } else {
                1 - q
            },
        ),
    decreases s.len(),
{
    lemma_parity_steps();
    if s.len() == 0 {
    } else {
        let rest = s.skip(1);
        assert forall|i: int| 0 <= i < rest.len() implies rest[i] == 'a' || rest[i] == 'b' by {
            assert(rest[i] == s[i + 1]);
        }
        if s[0] == 'a' {
            lemma_parity_run(rest, 1 - q);
        } else {
            lemma_parity_run(rest, q);
        }
    }
}

/// The parity automaton accepts exactly the strings over the alphabet
/// with an even number of `a` symbols, whatever their length and
/// however many `b` symbols they hold.
pub proof fn lemma_parity_acceptance(a: Automaton, s: Seq<char>)
    requires
        is_parity_automaton(a),
        over_alphabet(s),
    ensures
        spec_accepts(a, s) == (count_a(s) % 2 == 0),
{
    lemma_parity_run(s, 0);
}

/// Prepending one symbol adds an occurrence of `aba` only at the front.
proof fn lemma_contains_aba_cons(c: char, s: Seq<char>)
    ensures
        contains_aba(seq![c] + s) == ((c == 'a' && s.len() >= 2 && s[0] == 'b' && s[1] == 'a')
            || contains_aba(s)),
{
    let t = seq![c] + s;
    assert(t.len() == s.len() + 1);
    assert(t[0] == c);
    assert forall|i: int| 0 <= i < s.len() implies t[i + 1] == s[i] by {}
    if c == 'a' && s.len() >= 2 && s[0] == 'b' && s[1] == 'a' {
        assert(t[0int] == 'a' && t[1int] == 'b' && t[2int] == 'a');
        assert(contains_aba(t));
    }
    if contains_aba(s) {
        let i = choose|i: int|
            0 <= i && i + 2 < s.len() && #[trigger] s[i] == 'a' && s[i + 1] == 'b' && s[i + 2]
                == 'a';
        assert(t[i + 1] == 'a' && t[i + 1 + 1] == 'b' && t[i + 1 + 2] == 'a');
        assert(contains_aba(t));
    }
    if contains_aba(t) {
        let i = choose|i: int|
            0 <= i && i + 2 < t.len() && #[trigger] t[i] == 'a' && t[i + 1] == 'b' && t[i + 2]
                == 'a';
        if i == 0 {
            assert(c == 'a' && s.len() >= 2 && s[0] == 'b' && s[1] == 'a');
        } else {
            assert(s[i - 1] == 'a' && s[i - 1 + 1] == 'b' && s[i - 1 + 2] == 'a');
            assert(contains_aba(s));
        }
    }
}

/// The single-step results of the substring automaton's transition table.
proof fn lemma_aba_steps()
    ensures
        spec_step(aba_edges(), 0, 'a') == Some(1int),
        spec_step(aba_edges(), 0, 'b') == Some(0int),
        spec_step(aba_edges(), 1, 'a') == Some(1int),
        spec_step(aba_edges(), 1, 'b') == Some(2int),
        spec_step(aba_edges(), 2, 'a') == Some(3int),
        spec_step(aba_edges(), 2, 'b') == Some(0int),
        spec_step(aba_edges(), 3, 'a') == Some(3int),
        spec_step(aba_edges(), 3, 'b') == Some(3int),
{
    reveal_with_fuel(step_from, 10);
}

/// The progress toward `aba` that each state of the substring automaton
/// stands for, as the symbols that have just been matched.
spec fn aba_ctx(q: int) -> Seq<char> {
    if q == 1 {
        seq!['a']
    } else if q == 2 {
        seq!['a', 'b']
    } else {
        Seq::empty()
    }
}

/// Running the substring automaton from state `q` with its matched
/// context prepended reaches the accepting state exactly when the
/// context plus the remaining input holds `aba`.
proof fn lemma_aba_run(s: Seq<char>, q: int)
    requires
        over_alphabet(s),
        0 <= q <= 3,
    ensures
        run_from(aba_edges(), q, s) is Some,
        0 <= run_from(aba_edges(), q, s)->Some_0 <= 3,
        (run_from(aba_edges(), q, s) == Some(3int)) <==> (q == 3 || contains_aba(aba_ctx(q) + s)),
    decreases s.len(),
{
    lemma_aba_steps();
    if s.len() == 0 {
        assert(aba_ctx(q) + s =~= aba_ctx(q));
    } else {
        let rest = s.skip(1);
        assert forall|i: int| 0 <= i < rest.len() implies rest[i] == 'a' || rest[i] == 'b' by {
            assert(rest[i] == s[i + 1]);
        }
        assert(s =~= seq![s[0]] + rest);
        if q == 0 {
            if s[0] == 'a' {
                lemma_aba_run(rest, 1);
                assert(aba_ctx(0) + s =~= aba_ctx(1) + rest);
            } else {
                lemma_aba_run(rest, 0);
                assert(aba_ctx(0) + s =~= seq!['b'] + rest);
                lemma_contains_aba_cons('b', rest);
                assert(aba_ctx(0) + rest =~= rest);
            }
        } else if q == 1 {
            if s[0] == 'a' {
                lemma_aba_run(rest, 1);
                let u = aba_ctx(1) + rest;
                assert(aba_ctx(1) + s =~= seq!['a'] + u);
                lemma_contains_aba_cons('a', u);
                assert(u[0] == 'a');
            } else {
                lemma_aba_run(rest, 2);
                assert(aba_ctx(1) + s =~= aba_ctx(2) + rest);
            }
        } else if q == 2 {
            if s[0] == 'a' {
                lemma_aba_run(rest, 3);
                let t = aba_ctx(2) + s;
                assert(t[0int] == 'a' && t[1int] == 'b' && t[2int] == 'a');
                assert(contains_aba(t));
            } else {
                lemma_aba_run(rest, 0);
                let u1 = seq!['b'] + rest;
                let u2 = seq!['b'] + u1;
                assert(aba_ctx(2) + s =~= seq!['a'] + u2);
                lemma_contains_aba_cons('a', u2);
                assert(u2[1] == 'b');
                lemma_contains_aba_cons('b', u1);
                lemma_contains_aba_cons('b', rest);
                assert(aba_ctx(0) + rest =~= rest);
            }
        } else {
            if s[0] == 'a' {
                lemma_aba_run(rest, 3);
            } else {
                lemma_aba_run(rest, 3);
            }
        }
    }
}

/// The substring automaton accepts exactly the strings over the
/// alphabet that hold `aba` as a contiguous substring.
pub proof fn lemma_aba_acceptance(a: Automaton, s: Seq<char>)
    requires
        is_aba_automaton(a),
        over_alphabet(s),
    ensures
        spec_accepts(a, s) == contains_aba(s),
{
    lemma_aba_run(s, 0);
    assert(aba_ctx(0) + s =~= s);
}

/// Reachability by one edge, given as a concrete witness.
proof fn lemma_edge_reaches(edges: Seq<Edge>, k: int, hops: nat)
    requires
        0 <= k < edges.len(),
        reachable_within(edges, edges[k].src as int, hops),
    ensures
        reachable_within(edges, edges[k].dst as int, hops + 1),
        spec_reachable(edges, edges[k].dst as int),
{
    assert(edge_between(edges, edges[k].src as int, edges[k].dst as int));
    assert(reachable_within(edges, edges[k].dst as int, hops + 1));
}

/// The simple automaton satisfies all three checked structural
/// properties, and an accepting state is reachable in it.
pub proof fn lemma_simple_structure(a: Automaton)
    requires
        is_simple_automaton(a),
    ensures
        spec_all_states_reachable(a),
        spec_deadlock_free(a),
        spec_deterministic(a.edges_seq()),
        spec_reachable_accepting(a),
{
    let edges = simple_edges();
    assert(edges[0int] == Edge { src: 0, dst: 1, symbol: 'a' });
    assert(edges[1int] == Edge { src: 1, dst: 2, symbol: 'b' });
    assert(edges[2int] == Edge { src: 2, dst: 0, symbol: 'a' });
    assert(edges[3int] == Edge { src: 2, dst: 1, symbol: 'b' });
    assert(reachable_within(edges, 0, 0));
    assert(spec_reachable(edges, 0));
    lemma_edge_reaches(edges, 0, 0);
    lemma_edge_reaches(edges, 1, 1);
    assert forall|v: int| 0 <= v < a.states_seq().len() implies spec_reachable(
        a.edges_seq(),
        v,
    ) by {}
    assert forall|q: int| 0 <= q < a.states_seq().len() implies has_outgoing(
        a.edges_seq(),
        q,
    ) by {
        if q == 0 {
            assert(has_outgoing(edges, 0));
        } else if q == 1 {
            assert(has_outgoing(edges, 1));
        } else {
            assert(has_outgoing(edges, 2));
        }
    }
}

/// The parity automaton satisfies all three checked structural
/// properties, and an accepting state is reachable in it.
pub proof fn lemma_parity_structure(a: Automaton)
    requires
        is_parity_automaton(a),
    ensures
        spec_all_states_reachable(a),
        spec_deadlock_free(a),
        spec_deterministic(a.edges_seq()),
        spec_reachable_accepting(a),
{
    let edges = parity_edges();
    assert(edges[0int] == Edge { src: 0, dst: 1, symbol: 'a' });
    assert(edges[1int] == Edge { src: 1, dst: 0, symbol: 'a' });
    assert(edges[2int] == Edge { src: 0, dst: 0, symbol: 'b' });
    assert(edges[3int] == Edge { src: 1, dst: 1, symbol: 'b' });
    assert(reachable_within(edges, 0, 0));
    assert(spec_reachable(edges, 0));
    lemma_edge_reaches(edges, 0, 0);
    assert forall|v: int| 0 <= v < a.states_seq().len() implies spec_reachable(
        a.edges_seq(),
        v,
    ) by {}
    assert forall|q: int| 0 <= q < a.states_seq().len() implies has_outgoing(
        a.edges_seq(),
        q,
    ) by {
        if q == 0 {
            assert(has_outgoing(edges, 0));
        } else {
            assert(has_outgoing(edges, 1));
        }
    }
}

/// The substring automaton satisfies all three checked structural
/// properties, and an accepting state is reachable in it.
pub proof fn lemma_aba_structure(a: Automaton)
    requires
        is_aba_automaton(a),
    ensures
        spec_all_states_reachable(a),
        spec_deadlock_free(a),
        spec_deterministic(a.edges_seq()),
        spec_reachable_accepting(a),
{
    let edges = aba_edges();
    assert(edges[0int] == Edge { src: 0, dst: 1, symbol: 'a' });
    assert(edges[1int] == Edge { src: 0, dst: 0, symbol: 'b' });
    assert(edges[2int] == Edge { src: 1, dst: 1, symbol: 'a' });
    assert(edges[3int] == Edge { src: 1, dst: 2, symbol: 'b' });
    assert(edges[4int] == Edge { src: 2, dst: 3, symbol: 'a' });
    assert(edges[5int] == Edge { src: 2, dst: 0, symbol: 'b' });
    assert(edges[6int] == Edge { src: 3, dst: 3, symbol: 'a' });
    assert(edges[7int] == Edge { src: 3, dst: 3, symbol: 'b' });
    assert(reachable_within(edges, 0, 0));
    assert(spec_reachable(edges, 0));
    lemma_edge_reaches(edges, 0, 0);
    lemma_edge_reaches(edges, 3, 1);
    lemma_edge_reaches(edges, 4, 2);
    assert forall|v: int| 0 <= v < a.states_seq().len() implies spec_reachable(
        a.edges_seq(),
        v,
    ) by {}
    assert forall|q: int| 0 <= q < a.states_seq().len() implies has_outgoing(
        a.edges_seq(),
        q,
    ) by {
        if q == 0 {
            assert(has_outgoing(edges, 0));
        } else if q == 1 {
            assert(has_outgoing(edges, 1));
        } else if q == 2 {
            assert(has_outgoing(edges, 2));
        } else {
            assert(has_outgoing(edges, 3));
        }
    }
}

} // verus!
