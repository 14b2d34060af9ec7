//! A small library of finite-state automata over a finite symbol alphabet.
//!
//! An automaton is a directed labeled multigraph: states are kept in an
//! arena (insertion order gives each state its index, and state 0 is the
//! start state), and transitions are index-based labeled edges tried in
//! insertion order. The library builds three example automata, decides
//! whether an input string is accepted, and checks structural properties
//! of the graph (reachability, deadlock freedom, determinism).

pub mod acceptance;
pub mod automaton;
pub mod builders;
pub mod checks;
pub mod laws;

pub use acceptance::is_accepted;
pub use automaton::Automaton;
pub use automaton::Edge;
pub use automaton::State;
pub use automaton::Transition;
pub use builders::build_contains_aba_automaton;
pub use builders::build_even_a_automaton;
pub use builders::build_simple_automaton;
pub use checks::model_check;
