//! The capability analyzer: builds the dependency graph of a blueprint, seeds
//! each component with what its imports grant, propagates along edges to a
//! fixed point, and checks the safety rules.

use vstd::prelude::*;
use crate::blueprint::{
    component_names, dot_prefix, find_name, first_segment, host_name, is_host, name_list, names_unique,
    node_of, component_index, Blueprint,
};
use crate::capability::{infer_capabilities, infer_spec, CapSet};
use crate::depgraph::{
    graph_add_edge, graph_add_node, graph_contains_edge, graph_edges, graph_new, graph_node_count,
    graph_successors,
};

verus! {

/// The consumer component named by wiring entry `k`.
pub open spec fn wire_consumer(bp: Blueprint, k: int) -> Seq<char> {
    dot_prefix(bp.wiring@[k].0@)
}

/// The full provider key of wiring entry `k`.
pub open spec fn wire_provider(bp: Blueprint, k: int) -> Seq<char> {
    bp.wiring@[k].1.provider_spec()
}

/// Wiring entry `k` makes the edge `a -> b`.
pub open spec fn wire_edge(bp: Blueprint, k: int, a: int, b: int) -> bool {
    &&& node_of(component_names(bp), wire_consumer(bp, k)) == Some(a)
    &&& node_of(component_names(bp), dot_prefix(wire_provider(bp, k))) == Some(b)
}

/// The dependency graph has an edge from `a` (consumer) to `b` (provider).
pub open spec fn has_edge(bp: Blueprint, a: int, b: int) -> bool {
    exists|k: int| 0 <= k < bp.wiring@.len() && #[trigger] wire_edge(bp, k, a, b)
}

/// What the first `k` wiring entries grant component `i` directly.
pub open spec fn seed_upto(bp: Blueprint, i: int, k: int) -> CapSet
    decreases k,
{
    if k <= 0 {
        CapSet::empty_spec()
    } else {
        let prev = seed_upto(bp, i, k - 1);
        if node_of(component_names(bp), wire_consumer(bp, k - 1)) == Some(i) {
            prev.union_spec(infer_spec(wire_provider(bp, k - 1)))
        } else {
            prev
        }
    }
}

/// What the wiring grants component `i` directly.
pub open spec fn seed(bp: Blueprint, i: int) -> CapSet {
    seed_upto(bp, i, bp.wiring@.len() as int)
}

/// `caps` gives each component at least its seed and is closed along edges:
/// a consumer holds everything that its providers hold.
pub open spec fn closed_map(bp: Blueprint, caps: Seq<CapSet>) -> bool {
    let n = bp.components@.len() as int;
    &&& caps.len() == n
    &&& forall|i: int| 0 <= i < n ==> #[trigger] seed(bp, i).subset_of(caps[i])
    &&& forall|a: int, b: int|
        0 <= a < n && 0 <= b < n && #[trigger] has_edge(bp, a, b) ==> caps[b].subset_of(caps[a])
}

/// `caps` is the capability map of the blueprint: the least closed map.
pub open spec fn is_capability_map(bp: Blueprint, caps: Seq<CapSet>) -> bool {
    &&& closed_map(bp, caps)
    &&& forall|x: Seq<CapSet>| #[trigger] closed_map(bp, x) ==> le_map(caps, x)
}

/// Pointwise inclusion of two maps of the same length.
pub open spec fn le_map(c: Seq<CapSet>, x: Seq<CapSet>) -> bool {
    c.len() <= x.len() && forall|i: int| 0 <= i < c.len() ==> #[trigger] c[i].subset_of(x[i])
}

/// The number of absent members over a whole map.
pub open spec fn total_missing(s: Seq<CapSet>) -> nat
    decreases s.len(),
{
    if s.len() == 0 {
        0
    } else {
        total_missing(s.drop_last()) + s.last().missing()
    }
}

proof fn lemma_total_missing_update(s: Seq<CapSet>, i: int, v: CapSet)
    requires
        0 <= i < s.len(),
    ensures
        total_missing(s.update(i, v)) + s[i].missing() == total_missing(s) + v.missing(),
    decreases s.len(),
{
    let t = s.update(i, v);
    if i == s.len() - 1 {
        assert(t.drop_last() =~= s.drop_last());
    } else {
        assert(t.drop_last() =~= s.drop_last().update(i, v));
        lemma_total_missing_update(s.drop_last(), i, v);
    }
}

/// Two capability maps of one blueprint are equal: the map is unique.
pub proof fn lemma_capability_map_unique(bp: Blueprint, c1: Seq<CapSet>, c2: Seq<CapSet>)
    requires
        is_capability_map(bp, c1),
        is_capability_map(bp, c2),
    ensures
        c1 == c2,
{
    assert(le_map(c1, c2));
    assert(le_map(c2, c1));
    assert forall|i: int| 0 <= i < c1.len() implies c1[i] == c2[i] by {
        assert(c1[i].subset_of(c2[i]));
        assert(c2[i].subset_of(c1[i]));
    }
    assert(c1 =~= c2);
}

/// The graph node that `name` denotes (see `node_of`).
pub fn resolve_node(names: &Vec<String>, name: &str) -> (r: Option<usize>)
    requires
        names_unique(names@.map_values(|s: String| s@)),
    ensures
        match r {
            Some(x) => node_of(names@.map_values(|s: String| s@), name@) == Some(x as int),
            None => node_of(names@.map_values(|s: String| s@), name@) is None,
        },
{
    match find_name(names, name) {
        Some(i) => Some(i),
        None => {
            if is_host(name) {
                Some(names.len())
            } else {
                None
            }
        },
    }
}

/// The capability map of a blueprint whose component names are unique: the
/// least assignment that holds each component's seed and is closed along the
/// edges of the dependency graph.
pub fn capability_map(bp: &Blueprint) -> (r: Vec<CapSet>)
    requires
        names_unique(component_names(*bp)),
    ensures
        is_capability_map(*bp, r@),
{
    let names = name_list(bp);
    let ghost ns = component_names(*bp);
    assert(names@.map_values(|s: String| s@) =~= ns);
    let n = names.len();

    // 1. Graph: one node per component, plus the host unless a component
    //    takes its name.
    let mut g = graph_new();
    let mut i: usize = 0;
    while i < n
        invariant
            i <= n,
            graph_node_count(g) == i,
            graph_edges(g) == Set::<(int, int)>::empty(),
        decreases n - i,
    {
        graph_add_node(&mut g);
        i = i + 1;
    }
    if find_name(&names, "host").is_none() {
        graph_add_node(&mut g);
    }
    proof {
        assert forall|name: Seq<char>| #[trigger] node_of(ns, name) is Some implies 0 <= node_of(ns, name)->0
            < graph_node_count(g) by {
            if component_index(ns, name) is None && name == host_name() {
                assert forall|j: int| 0 <= j < names@.len() implies names@[j]@ != "host"@ by {
                    assert(ns[j] == names@[j]@);
                }
            }
        }
    }
    let ghost nodes = graph_node_count(g);

    let mut k: usize = 0;
    while k < bp.wiring.len()
        invariant
            k <= bp.wiring@.len(),
            ns == component_names(*bp),
            names_unique(ns),
            names@.map_values(|s: String| s@) == ns,
            graph_node_count(g) == nodes,
            forall|name: Seq<char>| #[trigger] node_of(ns, name) is Some ==> 0 <= node_of(ns, name)->0 < nodes,
            forall|a: int, b: int| #[trigger] graph_edges(g).contains((a, b)) <==> exists|j: int|
                0 <= j < k && #[trigger] wire_edge(*bp, j, a, b),
        decreases bp.wiring@.len() - k,
    {
        let c_name = first_segment(bp.wiring[k].0.as_str());
        let p_name = first_segment(bp.wiring[k].1.provider().as_str());
        let c = resolve_node(&names, c_name.as_str());
        let p = resolve_node(&names, p_name.as_str());
        let ghost before = graph_edges(g);
        match (c, p) {
            (Some(c), Some(p)) => {
                if !graph_contains_edge(&g, c, p) {
                    graph_add_edge(&mut g, c, p);
                }
                proof {
                    assert(wire_edge(*bp, k as int, c as int, p as int));
                    assert forall|a: int, b: int| #[trigger] graph_edges(g).contains((a, b)) <==> exists|j: int|
                        0 <= j < k + 1 && #[trigger] wire_edge(*bp, j, a, b) by {
                        if graph_edges(g).contains((a, b)) {
                            if !before.contains((a, b)) {
                                assert(a == c && b == p);
                            }
                        } else {
                            if exists|j: int| 0 <= j < k + 1 && #[trigger] wire_edge(*bp, j, a, b) {
                                let j = choose|j: int| 0 <= j < k + 1 && #[trigger] wire_edge(*bp, j, a, b);
                                if j == k {
                                    assert(a == c && b == p);
                                }
                            }
                        }
                    }
                }
            },
            _ => {
                proof {
                    assert forall|a: int, b: int| #[trigger] graph_edges(g).contains((a, b)) <==> exists|j: int|
                        0 <= j < k + 1 && #[trigger] wire_edge(*bp, j, a, b) by {
                        if exists|j: int| 0 <= j < k + 1 && #[trigger] wire_edge(*bp, j, a, b) {
                            let j = choose|j: int| 0 <= j < k + 1 && #[trigger] wire_edge(*bp, j, a, b);
                            if j == k {
                                assert(false);
                            }
                        }
                    }
                }
            },
        }
        k = k + 1;
    }
    assert(forall|a: int, b: int| #[trigger] graph_edges(g).contains((a, b)) <==> has_edge(*bp, a, b));

    // 2. Seeds: each wire grants its consumer what the provider key infers.
    let mut caps: Vec<CapSet> = Vec::new();
    let mut i: usize = 0;
    while i < n
        invariant
            i <= n,
            caps@.len() == i,
            forall|j: int| 0 <= j < i ==> caps@[j] == CapSet::empty_spec(),
        decreases n - i,
    {
        caps.push(CapSet::empty());
        i = i + 1;
    }
    let mut k: usize = 0;
    while k < bp.wiring.len()
        invariant
            k <= bp.wiring@.len(),
            n == ns.len(),
            ns == component_names(*bp),
            names_unique(ns),
            names@.map_values(|s: String| s@) == ns,
            caps@.len() == n,
            forall|j: int| 0 <= j < n ==> #[trigger] caps@[j] == seed_upto(*bp, j, k as int),
        decreases bp.wiring@.len() - k,
    {
        let c_name = first_segment(bp.wiring[k].0.as_str());
        let granted = infer_capabilities(bp.wiring[k].1.provider().as_str());
        let c = resolve_node(&names, c_name.as_str());
        let ghost old_caps = caps@;
        match c {
            Some(c) => {
                if c < n {
                    let merged = caps[c].union(&granted);
                    caps.set(c, merged);
                }
            },
            None => {},
        }
        proof {
            assert forall|j: int| 0 <= j < n implies #[trigger] caps@[j] == seed_upto(*bp, j, k + 1) by {
                assert(old_caps[j] == seed_upto(*bp, j, k as int));
            }
        }
        k = k + 1;
    }

    // 3. Successor lists of the components.
    let mut adj: Vec<Vec<usize>> = Vec::new();
    let mut a: usize = 0;
    while a < n
        invariant
            a <= n,
            adj@.len() == a,
            forall|x: int, b: usize| 0 <= x < a ==> (#[trigger] adj@[x]@.contains(b) <==> graph_edges(g).contains((x, b as int))),
        decreases n - a,
    {
        adj.push(graph_successors(&g, a));
        a = a + 1;
    }

    // 4. Propagation to the fixed point.
    proof {
        assert forall|x: Seq<CapSet>| #[trigger] closed_map(*bp, x) implies le_map(caps@, x) by {
            assert forall|q: int| 0 <= q < caps@.len() implies #[trigger] caps@[q].subset_of(x[q]) by {
                assert(caps@[q] == seed(*bp, q));
                assert(seed(*bp, q).subset_of(x[q]));
            }
        }
    }
    loop
        invariant_except_break
            n == ns.len(),
            ns == component_names(*bp),
            caps@.len() == n,
            adj@.len() == n,
            forall|x: int, b: usize| 0 <= x < n ==> (#[trigger] adj@[x]@.contains(b) <==> graph_edges(g).contains((x, b as int))),
            forall|a: int, b: int| #[trigger] graph_edges(g).contains((a, b)) <==> has_edge(*bp, a, b),
            forall|j: int| 0 <= j < n ==> #[trigger] seed(*bp, j).subset_of(caps@[j]),
            forall|x: Seq<CapSet>| #[trigger] closed_map(*bp, x) ==> le_map(caps@, x),
        ensures
            closed_map(*bp, caps@),
            forall|x: Seq<CapSet>| #[trigger] closed_map(*bp, x) ==> le_map(caps@, x),
        decreases total_missing(caps@),
    {
        let ghost start = caps@;
        let mut changed = false;
        let mut a: usize = 0;
        while a < n
            invariant
                a <= n,
                n == ns.len(),
                ns == component_names(*bp),
                caps@.len() == n,
                adj@.len() == n,
                forall|x: int, b: usize| 0 <= x < n ==> (#[trigger] adj@[x]@.contains(b) <==> graph_edges(g).contains((x, b as int))),
                forall|a: int, b: int| #[trigger] graph_edges(g).contains((a, b)) <==> has_edge(*bp, a, b),
                forall|j: int| 0 <= j < n ==> #[trigger] seed(*bp, j).subset_of(caps@[j]),
                forall|x: Seq<CapSet>| #[trigger] closed_map(*bp, x) ==> le_map(caps@, x),
                changed ==> total_missing(caps@) < total_missing(start),
                !changed ==> caps@ == start,
                !changed ==> forall|x: int, b: usize| 0 <= x < a && b < n && #[trigger] adj@[x]@.contains(b)
                    ==> start[b as int].subset_of(start[x]),
            decreases n - a,
        {
            let mut j: usize = 0;
            while j < adj[a].len()
                invariant
                    a < n,
                    j <= adj@[a as int]@.len(),
                    n == ns.len(),
                    ns == component_names(*bp),
                    caps@.len() == n,
                    adj@.len() == n,
                    forall|x: int, b: usize| 0 <= x < n ==> (#[trigger] adj@[x]@.contains(b) <==> graph_edges(g).contains((x, b as int))),
                    forall|a: int, b: int| #[trigger] graph_edges(g).contains((a, b)) <==> has_edge(*bp, a, b),
                    forall|j: int| 0 <= j < n ==> #[trigger] seed(*bp, j).subset_of(caps@[j]),
                    forall|x: Seq<CapSet>| #[trigger] closed_map(*bp, x) ==> le_map(caps@, x),
                    changed ==> total_missing(caps@) < total_missing(start),
                    !changed ==> caps@ == start,
                    !changed ==> forall|x: int, b: usize| 0 <= x < a && b < n && #[trigger] adj@[x]@.contains(b)
                        ==> start[b as int].subset_of(start[x]),
                    !changed ==> forall|q: int| 0 <= q < j && adj@[a as int]@[q] < n
                        ==> start[adj@[a as int]@[q] as int].subset_of(start[a as int]),
                decreases adj@[a as int]@.len() - j,
            {
                let b = adj[a][j];
                if b < n {
                    let cb = caps[b];
                    let ca = caps[a];
                    if !cb.is_subset(&ca) {
                        let merged = ca.union(&cb);
                        let ghost prev = caps@;
                        proof {
                            assert(adj@[a as int]@.contains(b));
                            assert(has_edge(*bp, a as int, b as int));
                            lemma_total_missing_update(prev, a as int, merged);
                            assert(ca.subset_of(merged));
                            assert forall|x: Seq<CapSet>| #[trigger] closed_map(*bp, x) implies le_map(prev.update(a as int, merged), x) by {
                                assert(le_map(prev, x));
                                assert(prev[a as int].subset_of(x[a as int]));
                                assert(prev[b as int].subset_of(x[b as int]));
                                assert(x[b as int].subset_of(x[a as int]));
                            }
                        }
                        caps.set(a, merged);
                        changed = true;
                        proof {
                            assert forall|q: int| 0 <= q < n implies #[trigger] seed(*bp, q).subset_of(caps@[q]) by {
                                assert(seed(*bp, q).subset_of(prev[q]));
                            }
                        }
                    }
                }
                j = j + 1;
            }
            proof {
                if !changed {
                    assert forall|x: int, b: usize| 0 <= x < a + 1 && b < n && #[trigger] adj@[x]@.contains(b)
                        implies start[b as int].subset_of(start[x]) by {
                        if x == a {
                            let q = adj@[a as int]@.index_of(b);
                        }
                    }
                }
            }
            a = a + 1;
        }
        if !changed {
            proof {
                assert forall|x: int, b: int| 0 <= x < n && 0 <= b < n && #[trigger] has_edge(*bp, x, b)
                    implies caps@[b].subset_of(caps@[x]) by {
                    assert(graph_edges(g).contains((x, b)));
                    assert(adj@[x]@.contains(b as usize));
                }
            }
            break;
        }
    }
    caps
}

} // verus!

verus! {

proof fn lemma_seed_grows(bp: Blueprint, i: int, k: int, kk: int)
    requires
        0 <= k < kk,
        node_of(component_names(bp), wire_consumer(bp, k)) == Some(i),
    ensures
        infer_spec(wire_provider(bp, k)).subset_of(seed_upto(bp, i, kk)),
    decreases kk,
{
    if kk - 1 > k {
        lemma_seed_grows(bp, i, k, kk - 1);
    }
}

proof fn lemma_seed_empty(bp: Blueprint, i: int, kk: int)
    requires
        0 <= kk <= bp.wiring@.len(),
        forall|k: int| 0 <= k < bp.wiring@.len() ==> node_of(component_names(bp), #[trigger] wire_consumer(bp, k)) != Some(i),
    ensures
        seed_upto(bp, i, kk) == CapSet::empty_spec(),
    decreases kk,
{
    if kk > 0 {
        lemma_seed_empty(bp, i, kk - 1);
        assert(node_of(component_names(bp), wire_consumer(bp, kk - 1)) != Some(i));
    }
}

/// After analysis every consumer holds at least what each of its providers
/// holds: for every edge `a -> b`, `caps(a) ⊇ caps(b)`.
pub proof fn lemma_edges_closed(bp: Blueprint, caps: Seq<CapSet>, a: int, b: int)
    requires
        is_capability_map(bp, caps),
        0 <= a < bp.components@.len(),
        0 <= b < bp.components@.len(),
        has_edge(bp, a, b),
    ensures
        caps[b].subset_of(caps[a]),
{
}

/// A component that consumes no wire holds no capability.
pub proof fn lemma_unwired_is_empty(bp: Blueprint, caps: Seq<CapSet>, i: int)
    requires
        is_capability_map(bp, caps),
        0 <= i < bp.components@.len(),
        forall|k: int| 0 <= k < bp.wiring@.len() ==> node_of(component_names(bp), #[trigger] wire_consumer(bp, k)) != Some(i),
    ensures
        caps[i] == CapSet::empty_spec(),
{
    let n = bp.components@.len() as int;
    let x = caps.update(i, CapSet::empty_spec());
    lemma_seed_empty(bp, i, bp.wiring@.len() as int);
    assert forall|j: int| 0 <= j < n implies #[trigger] seed(bp, j).subset_of(x[j]) by {
        if j != i {
            assert(seed(bp, j).subset_of(caps[j]));
        }
    }
    assert forall|a: int, b: int| 0 <= a < n && 0 <= b < n && #[trigger] has_edge(bp, a, b) implies x[b].subset_of(x[a]) by {
        let k = choose|k: int| 0 <= k < bp.wiring@.len() && #[trigger] wire_edge(bp, k, a, b);
        assert(node_of(component_names(bp), wire_consumer(bp, k)) != Some(i));
        assert(a != i);
        assert(caps[b].subset_of(caps[a]));
    }
    assert(closed_map(bp, x));
    assert(le_map(caps, x));
    assert(caps[i].subset_of(x[i]));
}

/// On a cycle `a -> b -> a` propagation ends with `caps(a) = caps(b)`.
pub proof fn lemma_cycle_equal(bp: Blueprint, caps: Seq<CapSet>, a: int, b: int)
    requires
        is_capability_map(bp, caps),
        0 <= a < bp.components@.len(),
        0 <= b < bp.components@.len(),
        has_edge(bp, a, b),
        has_edge(bp, b, a),
    ensures
        caps[a] == caps[b],
{
    assert(caps[b].subset_of(caps[a]));
    assert(caps[a].subset_of(caps[b]));
}

/// A provider key whose first segment is `host` names the host node, and its
/// classification still reaches the consumer.
pub proof fn lemma_host_provider(bp: Blueprint, caps: Seq<CapSet>, k: int, i: int)
    requires
        is_capability_map(bp, caps),
        0 <= k < bp.wiring@.len(),
        0 <= i < bp.components@.len(),
        node_of(component_names(bp), wire_consumer(bp, k)) == Some(i),
        dot_prefix(wire_provider(bp, k)) == host_name(),
        component_index(component_names(bp), host_name()) is None,
    ensures
        has_edge(bp, i, bp.components@.len() as int),
        infer_spec(wire_provider(bp, k)).subset_of(caps[i]),
{
    assert(wire_edge(bp, k, i, bp.components@.len() as int));
    lemma_seed_grows(bp, i, k, bp.wiring@.len() as int);
    assert(seed(bp, i).subset_of(caps[i]));
}

} // verus!
