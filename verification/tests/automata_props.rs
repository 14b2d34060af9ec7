use automata::build_contains_aba_automaton;
use automata::build_even_a_automaton;
use automata::build_simple_automaton;
use automata::is_accepted;
use automata::model_check;
use automata::Automaton;
use automata::State;
use automata::Transition;

fn crafted_nondeterministic() -> Automaton {
    let mut graph = Automaton::new();
    let s0 = graph.add_node(State {
        name: "N0".to_owned(),
        is_accepting: true,
    });
    let s1 = graph.add_node(State {
        name: "N1".to_owned(),
        is_accepting: false,
    });
    graph.add_edge(s0, s1, Transition { symbol: 'a' });
    graph.add_edge(s0, s0, Transition { symbol: 'a' });
    graph.add_edge(s1, s0, Transition { symbol: 'b' });
    graph
}

#[test]
fn empty_input_matches_start_state_flag() {
    assert_eq!(is_accepted(&build_simple_automaton(), ""), false);
    assert_eq!(is_accepted(&build_even_a_automaton(), ""), true);
    assert_eq!(is_accepted(&build_contains_aba_automaton(), ""), false);
}

#[test]
fn parity_counts_a_symbols() {
    let a = build_even_a_automaton();
    assert_eq!(is_accepted(&a, "a"), false);
    assert_eq!(is_accepted(&a, "aa"), true);
    assert_eq!(is_accepted(&a, "b"), true);
    assert_eq!(is_accepted(&a, "ab"), false);
    assert_eq!(is_accepted(&a, "aba"), true);
    assert_eq!(is_accepted(&a, "baab"), true);
    assert_eq!(is_accepted(&a, "aabbbb"), true);
    assert_eq!(is_accepted(&a, "bbbab"), false);
}

#[test]
fn substring_automaton_finds_aba() {
    let a = build_contains_aba_automaton();
    assert_eq!(is_accepted(&a, "aba"), true);
    assert_eq!(is_accepted(&a, "ab"), false);
    assert_eq!(is_accepted(&a, "ba"), false);
    assert_eq!(is_accepted(&a, "abba"), false);
    assert_eq!(is_accepted(&a, "aaba"), true);
    assert_eq!(is_accepted(&a, "ababa"), true);
    assert_eq!(is_accepted(&a, "bbabab"), true);
    assert_eq!(is_accepted(&a, "babb"), false);
}

#[test]
fn simple_automaton_accepts_ab_rejects_aa() {
    let a = build_simple_automaton();
    assert_eq!(is_accepted(&a, "ab"), true);
    assert_eq!(is_accepted(&a, "aa"), false);
}

#[test]
fn symbol_outside_alphabet_rejects_at_once() {
    let a = build_contains_aba_automaton();
    assert_eq!(is_accepted(&a, "xaba"), false);
    assert_eq!(is_accepted(&build_even_a_automaton(), "aa!"), false);
}

#[test]
fn all_states_reachable_in_every_example() {
    assert!(model_check(&build_simple_automaton(), "all_states_reachable"));
    assert!(model_check(&build_even_a_automaton(), "all_states_reachable"));
    assert!(model_check(
        &build_contains_aba_automaton(),
        "all_states_reachable"
    ));
}

#[test]
fn every_example_is_deadlock_free() {
    assert!(model_check(&build_simple_automaton(), "deadlock_free"));
    assert!(model_check(&build_even_a_automaton(), "deadlock_free"));
    assert!(model_check(&build_contains_aba_automaton(), "deadlock_free"));
}

#[test]
fn every_example_is_deterministic() {
    assert!(model_check(&build_simple_automaton(), "deterministic"));
    assert!(model_check(&build_even_a_automaton(), "deterministic"));
    assert!(model_check(&build_contains_aba_automaton(), "deterministic"));
}

#[test]
fn duplicate_symbol_edges_break_determinism() {
    let a = crafted_nondeterministic();
    assert_eq!(model_check(&a, "deterministic"), false);
    assert!(model_check(&a, "deadlock_free"));
}

#[test]
fn accepting_state_reachable_in_every_example() {
    assert!(model_check(&build_simple_automaton(), "reachable_accepting"));
    assert!(model_check(&build_even_a_automaton(), "reachable_accepting"));
    assert!(model_check(
        &build_contains_aba_automaton(),
        "reachable_accepting"
    ));
}

#[test]
fn unreachable_or_missing_accepting_states_are_noticed() {
    let mut graph = Automaton::new();
    let s0 = graph.add_node(State {
        name: "Lone".to_owned(),
        is_accepting: false,
    });
    let s1 = graph.add_node(State {
        name: "Island".to_owned(),
        is_accepting: true,
    });
    graph.add_edge(s0, s0, Transition { symbol: 'a' });
    graph.add_edge(s1, s1, Transition { symbol: 'a' });
    assert_eq!(model_check(&graph, "reachable_accepting"), false);
    assert_eq!(model_check(&graph, "all_states_reachable"), false);
    assert!(model_check(&graph, "deadlock_free"));
}

#[test]
fn missing_transitions_are_a_deadlock() {
    let mut graph = Automaton::new();
    let s0 = graph.add_node(State {
        name: "Stuck".to_owned(),
        is_accepting: true,
    });
    let _ = s0;
    assert_eq!(model_check(&graph, "deadlock_free"), false);
    assert!(model_check(&graph, "all_states_reachable"));
    assert!(model_check(&graph, "reachable_accepting"));
}

#[test]
fn unrecognized_property_is_not_satisfied() {
    let a = build_simple_automaton();
    assert_eq!(model_check(&a, "livelock_free"), false);
    assert_eq!(model_check(&a, ""), false);
    assert_eq!(model_check(&a, "DETERMINISTIC"), false);
}

#[test]
fn builders_produce_the_documented_graphs() {
    let a = build_simple_automaton();
    assert_eq!(a.node_count(), 3);
    assert_eq!(a.edge_count(), 4);
    assert_eq!(a.node(0).name, "S0");
    assert_eq!(a.node(1).name, "S1");
    assert_eq!(a.node(2).name, "S2");
    assert!(!a.node(0).is_accepting);
    assert!(!a.node(1).is_accepting);
    assert!(a.node(2).is_accepting);
    let e0 = a.edge(0);
    assert_eq!((e0.src, e0.dst, e0.symbol), (0, 1, 'a'));
    let e3 = a.edge(3);
    assert_eq!((e3.src, e3.dst, e3.symbol), (2, 1, 'b'));

    let p = build_even_a_automaton();
    assert_eq!(p.node_count(), 2);
    assert_eq!(p.edge_count(), 4);
    assert_eq!(p.node(0).name, "Even");
    assert_eq!(p.node(1).name, "Odd");
    assert!(p.node(0).is_accepting);

    let s = build_contains_aba_automaton();
    assert_eq!(s.node_count(), 4);
    assert_eq!(s.edge_count(), 8);
    assert!(s.node(3).is_accepting);
    let e7 = s.edge(7);
    assert_eq!((e7.src, e7.dst, e7.symbol), (3, 3, 'b'));
}

#[test]
fn first_matching_edge_in_insertion_order_wins() {
    let a = crafted_nondeterministic();
    // The first 'a' edge added from state 0 leads to the rejecting
    // state 1, so it shadows the later self-loop on the accepting state.
    assert_eq!(is_accepted(&a, "a"), false);
    assert_eq!(is_accepted(&a, "ab"), true);
}
