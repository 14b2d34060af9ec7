//! The structural verifier: independent, read-only graph traversals
//! that decide named properties of an automaton.

use vstd::prelude::*;

use crate::automaton::Automaton;
use crate::automaton::Edge;

verus! {

/// Some edge leads from state `u` to state `v`.
pub open spec fn edge_between(edges: Seq<Edge>, u: int, v: int) -> bool {
    exists|k: int|
        0 <= k < edges.len() && (#[trigger] edges[k]).src == u && edges[k].dst == v
}

/// State `v` is reachable from the start state by a path of at most `k` edges.
pub open spec fn reachable_within(edges: Seq<Edge>, v: int, k: nat) -> bool
    decreases k,
{
    if k == 0 {
        v == 0
    } else {
        reachable_within(edges, v, (k - 1) as nat) || exists|u: int|
            #[trigger] edge_between(edges, u, v) && reachable_within(edges, u, (k - 1) as nat)
    }
}

/// State `v` is reachable from the start state.
pub open spec fn spec_reachable(edges: Seq<Edge>, v: int) -> bool {
    exists|k: nat| reachable_within(edges, v, k)
}

/// Some reachable state is accepting.
pub open spec fn spec_reachable_accepting(a: Automaton) -> bool {
    exists|v: int|
        0 <= v < a.states_seq().len() && spec_reachable(a.edges_seq(), v) && (#[trigger] a
            .states_seq()[v]).is_accepting
}

/// Every state is reachable from the start state.
pub open spec fn spec_all_states_reachable(a: Automaton) -> bool {
    forall|v: int| 0 <= v < a.states_seq().len() ==> spec_reachable(a.edges_seq(), v)
}

/// State `q` has at least one outgoing transition.
pub open spec fn has_outgoing(edges: Seq<Edge>, q: int) -> bool {
    exists|k: int| 0 <= k < edges.len() && (#[trigger] edges[k]).src == q
}

/// Every state, reachable or not, has at least one outgoing transition.
pub open spec fn spec_deadlock_free(a: Automaton) -> bool {
    forall|q: int| 0 <= q < a.states_seq().len() ==> has_outgoing(a.edges_seq(), q)
}

/// No state has two outgoing transitions on the same symbol.
pub open spec fn spec_deterministic(edges: Seq<Edge>) -> bool {
    forall|k1: int, k2: int|
        0 <= k1 < edges.len() && 0 <= k2 < edges.len() && k1 != k2 ==> !((#[trigger] edges[k1]).src
            == (#[trigger] edges[k2]).src && edges[k1].symbol == edges[k2].symbol)
}

/// Every edge out of a visited state leads to a visited state.
pub open spec fn closed_under_edges(edges: Seq<Edge>, visited: Seq<bool>) -> bool {
    forall|j: int|
        0 <= j < edges.len() && visited[(#[trigger] edges[j]).src as int] ==> visited[edges[j].dst
            as int]
}

/// How many entries of the table are still false.
spec fn count_false(s: Seq<bool>) -> nat
    decreases s.len(),
{
    if s.len() == 0 {
        0
    } else {
        count_false(s.drop_last()) + (if s.last() {
            0nat
        } else {
            1nat
        })
    }
}

/// Setting a false entry to true lowers the false count by one.
proof fn lemma_count_false_update(s: Seq<bool>, i: int)
    requires
        0 <= i < s.len(),
        !s[i],
    ensures
        count_false(s.update(i, true)) + 1 == count_false(s),
    decreases s.len(),
{
    let t = s.update(i, true);
    if i == s.len() - 1 {
        assert(t.drop_last() =~= s.drop_last());
    } else {
        assert(t.drop_last() =~= s.drop_last().update(i, true));
        assert(t.last() == s.last());
        lemma_count_false_update(s.drop_last(), i);
    }
}

/// Reachability extends along an edge.
proof fn lemma_reachable_step(edges: Seq<Edge>, u: int, v: int)
    requires
        spec_reachable(edges, u),
        edge_between(edges, u, v),
    ensures
        spec_reachable(edges, v),
{
    let k = choose|k: nat| reachable_within(edges, u, k);
    assert(reachable_within(edges, v, k + 1));
}

/// A table that is closed under edges and marks the start state marks
/// every reachable state.
proof fn lemma_reachable_in_closed(edges: Seq<Edge>, visited: Seq<bool>, v: int, k: nat)
    requires
        visited.len() >= 1,
        visited[0],
        closed_under_edges(edges, visited),
        forall|j: int|
            0 <= j < edges.len() ==> {
                &&& (#[trigger] edges[j]).src < visited.len()
                &&& edges[j].dst < visited.len()
            },
        reachable_within(edges, v, k),
    ensures
        0 <= v < visited.len() && visited[v],
    decreases k,
{
    if k == 0 {
    } else if reachable_within(edges, v, (k - 1) as nat) {
        lemma_reachable_in_closed(edges, visited, v, (k - 1) as nat);
    } else {
        let u = choose|u: int|
            edge_between(edges, u, v) && reachable_within(edges, u, (k - 1) as nat);
        lemma_reachable_in_closed(edges, visited, u, (k - 1) as nat);
        let j = choose|j: int|
            0 <= j < edges.len() && (#[trigger] edges[j]).src == u && edges[j].dst == v;
        assert(visited[edges[j].dst as int]);
    }
}

/// Computes, for every state, whether it is reachable from the start
/// state, by a worklist traversal over the visited table.
fn reachable_table(a: &Automaton) -> (visited: Vec<bool>)
    requires
        a.wf(),
    ensures
        visited@.len() == a.states_seq().len(),
        forall|v: int|
            0 <= v < visited@.len() ==> visited@[v] == spec_reachable(a.edges_seq(), v),
{
    let ghost edges = a.edges_seq();
    let n = a.node_count();
    let m = a.edge_count();
    let mut visited: Vec<bool> = Vec::new();
    let mut i: usize = 0;
    while i < n
        invariant
            0 <= i <= n,
            visited@.len() == i,
            forall|v: int| 0 <= v < i ==> !visited@[v],
        decreases n - i,
    {
        visited.push(false);
        i = i + 1;
    }
    visited.set(0, true);
    let mut queue: Vec<usize> = Vec::new();
    queue.push(0);
    proof {
        assert(reachable_within(edges, 0, 0));
        assert(queue@[0] == 0usize);
        assert(queue@.contains(0usize));
    }
    while queue.len() > 0
        invariant
            a.wf(),
            edges == a.edges_seq(),
            n == a.states_seq().len(),
            m == edges.len(),
            visited@.len() == n,
            visited@[0],
            forall|t: int|
                0 <= t < queue@.len() ==> (#[trigger] queue@[t]) < n && visited@[queue@[t] as int],
            forall|v: int| 0 <= v < n && #[trigger] visited@[v] ==> spec_reachable(edges, v),
            forall|j: int|
                0 <= j < edges.len() && visited@[(#[trigger] edges[j]).src as int]
                    && !queue@.contains(edges[j].src) ==> visited@[edges[j].dst as int],
        decreases count_false(visited@), queue@.len(),
    {
        let ghost c0 = count_false(visited@);
        let ghost q0 = queue@;
        let u = queue.pop().unwrap();
        proof {
            assert(q0[q0.len() - 1] == u);
            assert forall|jj: int|
                0 <= jj < edges.len() && visited@[(#[trigger] edges[jj]).src as int]
                    && !queue@.contains(edges[jj].src) && edges[jj].src
                    != u implies visited@[edges[jj].dst as int] by {
                let s = edges[jj].src;
                if q0.contains(s) {
                    let t = choose|t: int| 0 <= t < q0.len() && q0[t] == s;
                    assert(t < q0.len() - 1);
                    assert(queue@[t] == s);
                    assert(queue@.contains(s));
                }
            }
        }
        let mut j: usize = 0;
        while j < m
            invariant
                a.wf(),
                edges == a.edges_seq(),
                n == a.states_seq().len(),
                m == edges.len(),
                visited@.len() == n,
                visited@[0],
                u < n,
                visited@[u as int],
                0 <= j <= m,
                count_false(visited@) + queue@.len() == c0 + q0.len() - 1,
                count_false(visited@) <= c0,
                forall|t: int|
                    0 <= t < queue@.len() ==> (#[trigger] queue@[t]) < n && visited@[queue@[t]
                        as int],
                forall|v: int| 0 <= v < n && #[trigger] visited@[v] ==> spec_reachable(edges, v),
                forall|jj: int|
                    0 <= jj < j && (#[trigger] edges[jj]).src == u ==> visited@[edges[jj].dst
                        as int],
                forall|jj: int|
                    0 <= jj < edges.len() && visited@[(#[trigger] edges[jj]).src as int]
                        && !queue@.contains(edges[jj].src) && edges[jj].src != u ==> visited@[
                        edges[jj].dst as int],
            decreases m - j,
        {
            let e = a.edge(j);
            if e.src == u {
                if !visited[e.dst] {
                    let ghost va = visited@;
                    let ghost qa = queue@;
                    proof {
                        lemma_count_false_update(visited@, e.dst as int);
                        assert(edge_between(edges, u as int, e.dst as int));
                        lemma_reachable_step(edges, u as int, e.dst as int);
                    }
                    visited.set(e.dst, true);
                    queue.push(e.dst);
                    proof {
                        assert(queue@ == qa.push(e.dst));
                        assert(queue@[queue@.len() - 1] == e.dst);
                        assert forall|jj: int|
                            0 <= jj < edges.len() && visited@[(#[trigger] edges[jj]).src as int]
                                && !queue@.contains(edges[jj].src) && edges[jj].src
                                != u implies visited@[edges[jj].dst as int] by {
                            let s = edges[jj].src;
                            if s == e.dst {
                                assert(queue@.contains(s));
                            } else {
                                assert(va[s as int] == visited@[s as int]);
                                if qa.contains(s) {
                                    let t = choose|t: int| 0 <= t < qa.len() && qa[t] == s;
                                    assert(queue@[t] == s);
                                    assert(queue@.contains(s));
                                } else {
                                    assert(va[edges[jj].dst as int]);
                                }
                            }
                        }
                    }
                }
            }
            j = j + 1;
        }
        proof {
            assert forall|jj: int|
                0 <= jj < edges.len() && visited@[(#[trigger] edges[jj]).src as int]
                    && !queue@.contains(edges[jj].src) implies visited@[edges[jj].dst as int] by {
                if edges[jj].src == u {
                }
            }
        }
    }
    proof {
        assert(closed_under_edges(edges, visited@));
        assert forall|v: int|
            0 <= v < visited@.len() implies visited@[v] == spec_reachable(edges, v) by {
            if spec_reachable(edges, v) {
                let k = choose|k: nat| reachable_within(edges, v, k);
                lemma_reachable_in_closed(edges, visited@, v, k);
            }
        }
    }
    visited
}

/// Decides whether some accepting state is reachable from the start state.
pub fn check_reachable_accepting(a: &Automaton) -> (r: bool)
    requires
        a.wf(),
    ensures
        r == spec_reachable_accepting(*a),
{
    let visited = reachable_table(a);
    let n = a.node_count();
    let mut i: usize = 0;
    while i < n
        invariant
            a.wf(),
            n == a.states_seq().len(),
            visited@.len() == n,
            forall|v: int| 0 <= v < n ==> visited@[v] == spec_reachable(a.edges_seq(), v),
            0 <= i <= n,
            forall|v: int|
                0 <= v < i ==> !(visited@[v] && (#[trigger] a.states_seq()[v]).is_accepting),
        decreases n - i,
    {
        if visited[i] && a.node(i).is_accepting {
            return true;
        }
        i = i + 1;
    }
    false
}

/// Decides whether every state is reachable from the start state.
pub fn check_all_states_reachable(a: &Automaton) -> (r: bool)
    requires
        a.wf(),
    ensures
        r == spec_all_states_reachable(*a),
{
    let visited = reachable_table(a);
    let n = a.node_count();
    let mut i: usize = 0;
    while i < n
        invariant
            a.wf(),
            n == a.states_seq().len(),
            visited@.len() == n,
            forall|v: int| 0 <= v < n ==> visited@[v] == spec_reachable(a.edges_seq(), v),
            0 <= i <= n,
            forall|v: int| 0 <= v < i ==> spec_reachable(a.edges_seq(), v),
        decreases n - i,
    {
        if !visited[i] {
            return false;
        }
        i = i + 1;
    }
    true
}

/// Decides whether every state has at least one outgoing transition.
pub fn check_deadlock_free(a: &Automaton) -> (r: bool)
    ensures
        r == spec_deadlock_free(*a),
{
    let n = a.node_count();
    let m = a.edge_count();
    let mut q: usize = 0;
    while q < n
        invariant
            n == a.states_seq().len(),
            m == a.edges_seq().len(),
            0 <= q <= n,
            forall|v: int| 0 <= v < q ==> has_outgoing(a.edges_seq(), v),
        decreases n - q,
    {
        let mut j: usize = 0;
        let mut found = false;
        while j < m && !found
            invariant
                m == a.edges_seq().len(),
                0 <= j <= m,
                !found ==> forall|jj: int|
                    0 <= jj < j ==> (#[trigger] a.edges_seq()[jj]).src != q,
                found ==> has_outgoing(a.edges_seq(), q as int),
            decreases m - j,
        {
            if a.edge(j).src == q {
                found = true;
            }
            j = j + 1;
        }
        if !found {
            proof {
                assert(!has_outgoing(a.edges_seq(), q as int));
            }
            return false;
        }
        q = q + 1;
    }
    true
}

/// Decides whether no state has two outgoing transitions on one symbol.
pub fn check_deterministic(a: &Automaton) -> (r: bool)
    ensures
        r == spec_deterministic(a.edges_seq()),
{
    let m = a.edge_count();
    let mut k2: usize = 0;
    while k2 < m
        invariant
            m == a.edges_seq().len(),
            0 <= k2 <= m,
            forall|i: int, j: int|
                0 <= i < k2 && 0 <= j < k2 && i != j ==> !((#[trigger] a.edges_seq()[i]).src == (
                #[trigger] a.edges_seq()[j]).src && a.edges_seq()[i].symbol == a.edges_seq()[
                j].symbol),
        decreases m - k2,
    {
        let e2 = a.edge(k2);
        let mut k1: usize = 0;
        while k1 < k2
            invariant
                m == a.edges_seq().len(),
                k2 < m,
                e2 == a.edges_seq()[k2 as int],
                0 <= k1 <= k2,
                forall|i: int|
                    0 <= i < k1 ==> !((#[trigger] a.edges_seq()[i]).src == e2.src && a.edges_seq()[
                    i].symbol == e2.symbol),
            decreases k2 - k1,
        {
            let e1 = a.edge(k1);
            if e1.src == e2.src && e1.symbol == e2.symbol {
                return false;
            }
            k1 = k1 + 1;
        }
        k2 = k2 + 1;
    }
    true
}

/// Character-by-character string comparison.
fn str_eq(x: &str, y: &str) -> (r: bool)
    ensures
        r == (x@ == y@),
{
    let xl = x.unicode_len();
    let yl = y.unicode_len();
    if xl != yl {
        return false;
    }
    let mut i: usize = 0;
    while i < xl
        invariant
            xl == x@.len(),
            xl == y@.len(),
            0 <= i <= xl,
            forall|t: int| 0 <= t < i ==> x@[t] == y@[t],
        decreases xl - i,
    {
        if x.get_char(i) != y.get_char(i) {
            return false;
        }
        i = i + 1;
    }
    proof {
        assert(x@ =~= y@);
    }
    true
}

/// What `model_check` decides for each property name. An unrecognized
/// name is deliberately resolved to a not-satisfied result rather than
/// an error, matching the oracle-like calling convention of consumers.
pub open spec fn spec_model_check(a: Automaton, property: Seq<char>) -> bool {
    if property == "reachable_accepting"@ {
        spec_reachable_accepting(a)
    } else if property == "all_states_reachable"@ {
        spec_all_states_reachable(a)
    } else if property == "deadlock_free"@ {
        spec_deadlock_free(a)
    } else if property == "deterministic"@ {
        spec_deterministic(a.edges_seq())
    } else {
        false
    }
}

/// Dispatches a named structural property check over the automaton.
pub fn model_check(automaton: &Automaton, property: &str) -> (r: bool)
    requires
        automaton.wf(),
    ensures
        r == spec_model_check(*automaton, property@),
{
    if str_eq(property, "reachable_accepting") {
        check_reachable_accepting(automaton)
    } else if str_eq(property, "all_states_reachable") {
        check_all_states_reachable(automaton)
    } else if str_eq(property, "deadlock_free") {
        check_deadlock_free(automaton)
    } else if str_eq(property, "deterministic") {
        check_deterministic(automaton)
    } else {
        false
    }
}

} // verus!
