//! The integer parts of graph and tree layout: layer assignment, slots within
//! layers, depths and grid shapes.
use vstd::prelude::*;
use crate::graph::{GraphData, edge_bad, graph_valid};
use crate::types::str_eq;
use crate::tree::{
    TreeData, find_id, index_of_id, lemma_index_of_id, parent_missing, reaches, tree_valid, valid_tree_nodes_reach_root,
};

verus! {

/// The edges of a graph as pairs of node positions.
pub open spec fn graph_links(ids: Seq<Seq<char>>, pairs: Seq<(Seq<char>, Seq<char>)>) -> Seq<(int, int)> {
    pairs.map_values(|p: (Seq<char>, Seq<char>)| (index_of_id(ids, p.0), index_of_id(ids, p.1)))
}

/// Some link ends at `v`.
pub open spec fn has_in_link(links: Seq<(int, int)>, v: int) -> bool {
    exists|j: int| 0 <= j < links.len() && #[trigger] links[j].1 == v
}

/// Every node has an incoming link.
pub open spec fn no_sources(n: nat, links: Seq<(int, int)>) -> bool {
    forall|v: int| 0 <= v < n ==> #[trigger] has_in_link(links, v)
}

/// Where the directed layering starts: the nodes without incoming links, or,
/// when every node has one, the first node.
pub open spec fn is_start(n: nat, links: Seq<(int, int)>, v: int) -> bool {
    !has_in_link(links, v) || (no_sources(n, links) && v == 0)
}

/// Link `j` ends at `v` and starts at an active node whose level plus one is `lv`.
pub open spec fn feeds(links: Seq<(int, int)>, act: Seq<bool>, l: Seq<usize>, j: int, v: int, lv: int) -> bool {
    &&& 0 <= j < links.len()
    &&& links[j].1 == v
    &&& act[links[j].0]
    &&& l[links[j].0] + 1 == lv
}

/// `l` is the longest-path layering of a directed graph from its start nodes:
/// `act` marks the nodes reached from a start; along every link out of a
/// reached node the level grows by at least one; each reached node is a start
/// on level 0 or sits one level above a reached predecessor; unreached nodes
/// are on level 0.
pub open spec fn longest_layering(n: nat, links: Seq<(int, int)>, l: Seq<usize>, act: Seq<bool>) -> bool {
    &&& l.len() == n && act.len() == n
    &&& forall|v: int| 0 <= v < n && is_start(n, links, v) ==> #[trigger] act[v]
    &&& forall|j: int|
        0 <= j < links.len() && #[trigger] act[links[j].0] ==> act[links[j].1] && l[links[j].1] >= l[links[j].0] + 1
    &&& forall|v: int| 0 <= v < n ==> #[trigger] layer_backed(n, links, act, l, v)
    &&& forall|v: int| 0 <= v < n && !#[trigger] act[v] ==> l[v] == 0
}

/// A reached node `v` is a start on level 0 or sits one level above a reached predecessor.
pub open spec fn layer_backed(n: nat, links: Seq<(int, int)>, act: Seq<bool>, l: Seq<usize>, v: int) -> bool {
    act[v] ==> (is_start(n, links, v) && l[v] == 0) || exists|j: int| #[trigger] feeds(links, act, l, j, v, l[v] as int)
}

/// `l` is the longest-path layering for some set of reached nodes.
pub open spec fn layered(n: nat, links: Seq<(int, int)>, l: Seq<usize>) -> bool {
    exists|act: Seq<bool>| #[trigger] longest_layering(n, links, l, act)
}

/// Link `j` joins `v` to a reached neighbour (either end) whose level plus one is `lv`.
pub open spec fn touches(links: Seq<(int, int)>, act: Seq<bool>, l: Seq<usize>, j: int, v: int, lv: int) -> bool {
    &&& 0 <= j < links.len()
    &&& ((links[j].1 == v && act[links[j].0] && l[links[j].0] + 1 == lv) || (links[j].0 == v && act[links[j].1]
        && l[links[j].1] + 1 == lv))
}

/// `l` is the breadth-first layering of an undirected graph from node 0:
/// `act` marks the nodes connected to node 0, which is on level 0; levels of
/// linked reached nodes differ by at most one; every other reached node sits
/// one level above a reached neighbour; unreached nodes are on level 0.
pub open spec fn bfs_layering(n: nat, links: Seq<(int, int)>, l: Seq<usize>, act: Seq<bool>) -> bool {
    &&& l.len() == n && act.len() == n && n > 0
    &&& act[0] && l[0] == 0
    &&& forall|j: int|
        0 <= j < links.len() && #[trigger] act[links[j].0] ==> act[links[j].1] && l[links[j].1] <= l[links[j].0] + 1
    &&& forall|j: int|
        0 <= j < links.len() && #[trigger] act[links[j].1] ==> act[links[j].0] && l[links[j].0] <= l[links[j].1] + 1
    &&& forall|v: int| 0 < v < n ==> #[trigger] bfs_backed(links, act, l, v)
    &&& forall|v: int| 0 <= v < n && !#[trigger] act[v] ==> l[v] == 0
}

/// A reached node `v` sits one level above a reached neighbour.
pub open spec fn bfs_backed(links: Seq<(int, int)>, act: Seq<bool>, l: Seq<usize>, v: int) -> bool {
    act[v] ==> exists|j: int| #[trigger] touches(links, act, l, j, v, l[v] as int)
}

/// A rank per node below `n` that grows along every link: the graph is acyclic.
pub open spec fn acyclic_rank(n: nat, links: Seq<(int, int)>, rank: Seq<nat>) -> bool {
    &&& rank.len() == n
    &&& forall|v: int| 0 <= v < n ==> #[trigger] rank[v] < n
    &&& forall|j: int| 0 <= j < links.len() ==> #[trigger] rank[links[j].0] < rank[links[j].1]
}

/// A bound on every layering: `reach` holds the starts and is closed along
/// links, the levels `b` grow by at least one along each link leaving a node
/// of `reach`, and all stay below `n`.
pub open spec fn level_bound(n: nat, links: Seq<(int, int)>, reach: Seq<bool>, b: Seq<nat>) -> bool {
    &&& reach.len() == n && b.len() == n
    &&& forall|v: int| 0 <= v < n ==> #[trigger] b[v] < n
    &&& forall|v: int| 0 <= v < n && is_start(n, links, v) ==> #[trigger] reach[v]
    &&& forall|j: int|
        0 <= j < links.len() && #[trigger] reach[links[j].0] ==> reach[links[j].1] && b[links[j].1] >= b[links[j].0]
            + 1
}

/// Reached nodes lie in `reach` and no higher than their bound.
pub open spec fn within(n: nat, act: Seq<bool>, l: Seq<usize>, reach: Seq<bool>, b: Seq<nat>) -> bool {
    forall|w: int| 0 <= w < n && #[trigger] act[w] ==> reach[w] && l[w] <= b[w]
}

proof fn lemma_rank_bounds(n: nat, links: Seq<(int, int)>, rank: Seq<nat>)
    requires
        acyclic_rank(n, links, rank),
        links_in_range(n, links),
    ensures
        level_bound(n, links, Seq::new(n, |v: int| true), rank),
{
}

/// Every level from 0 up to that of a reached node is taken by some reached node.
proof fn lemma_levels_filled(n: nat, links: Seq<(int, int)>, l: Seq<usize>, act: Seq<bool>, v: int, k: int)
    requires
        longest_layering(n, links, l, act),
        links_in_range(n, links),
        0 <= v < n,
        act[v],
        0 <= k <= l[v],
    ensures
        exists|w: int| 0 <= w < n && act[w] && #[trigger] l[w] == k,
    decreases l[v] - k,
{
    if l[v] == k {
        assert(0 <= v < n && act[v] && l[v] == k);
    } else {
        assert(layer_backed(n, links, act, l, v));
        let j = choose|j: int| #[trigger] feeds(links, act, l, j, v, l[v] as int);
        let u = links[j].0;
        assert(0 <= u < n);
        lemma_levels_filled(n, links, l, act, u, k);
    }
}

/// In a longest-path layering every level is below the number of nodes.
proof fn lemma_layer_below_n(n: nat, links: Seq<(int, int)>, l: Seq<usize>, act: Seq<bool>, v: int)
    requires
        longest_layering(n, links, l, act),
        links_in_range(n, links),
        0 <= v < n,
    ensures
        l[v] < n,
{
    if act[v] {
        let nodes = vstd::set_lib::set_int_range(0, n as int);
        let f = |w: int| l[w] as int;
        let levels = vstd::set_lib::set_int_range(0, l[v] + 1);
        vstd::set_lib::lemma_int_range(0, n as int);
        vstd::set_lib::lemma_int_range(0, l[v] + 1);
        vstd::set_lib::lemma_map_size_bound(nodes, nodes.map(f), f);
        assert forall|k: int| #[trigger] levels.contains(k) implies nodes.map(f).contains(k) by {
            lemma_levels_filled(n, links, l, act, v, k);
            let w = choose|w: int| 0 <= w < n && act[w] && #[trigger] l[w] == k;
            assert(nodes.contains(w) && f(w) == k);
        }
        vstd::set_lib::lemma_len_subset(levels, nodes.map(f));
    }
}

/// A longest-path layering bounds every layering (itself among them).
proof fn lemma_layering_bounds(n: nat, links: Seq<(int, int)>, l: Seq<usize>, act: Seq<bool>)
    requires
        longest_layering(n, links, l, act),
        links_in_range(n, links),
    ensures
        level_bound(n, links, act, l.map_values(|x: usize| x as nat)),
{
    let b = l.map_values(|x: usize| x as nat);
    assert forall|v: int| 0 <= v < n implies #[trigger] b[v] < n by {
        lemma_layer_below_n(n, links, l, act, v);
    }
    assert forall|j: int| 0 <= j < links.len() && #[trigger] act[links[j].0] implies act[links[j].1] && b[links[j].1]
        >= b[links[j].0] + 1 by {
        assert(0 <= links[j].0 < n && 0 <= links[j].1 < n);
    }
}

/// Links between positions below `n`.
pub open spec fn links_in_range(n: nat, links: Seq<(int, int)>) -> bool {
    forall|j: int| 0 <= j < links.len() ==> 0 <= #[trigger] links[j].0 < n && 0 <= links[j].1 < n
}

/// The sum over the first `k` nodes of `level + 1` for reached nodes.
pub open spec fn potential(act: Seq<bool>, l: Seq<usize>, k: int) -> int
    decreases k,
{
    if k <= 0 {
        0
    } else {
        potential(act, l, k - 1) + if act[k - 1] { l[k - 1] + 1 } else { 0 }
    }
}

proof fn lemma_potential_update(act: Seq<bool>, l: Seq<usize>, v: int, nl: usize, k: int)
    requires
        0 <= v < act.len(),
        act.len() == l.len(),
        0 <= k <= act.len(),
    ensures
        potential(act.update(v, true), l.update(v, nl), k) == potential(act, l, k) + if v < k {
            (nl + 1) - (if act[v] { l[v] + 1 } else { 0 })
        } else {
            0
        },
    decreases k,
{
    if k > 0 {
        lemma_potential_update(act, l, v, nl, k - 1);
    }
}

proof fn lemma_potential_bound(act: Seq<bool>, l: Seq<usize>, rank: Seq<nat>, n: nat, k: int)
    requires
        act.len() == n,
        l.len() == n,
        rank.len() == n,
        0 <= k <= n,
        forall|v: int| 0 <= v < n ==> #[trigger] rank[v] < n,
        forall|v: int| 0 <= v < n && #[trigger] act[v] ==> l[v] <= rank[v],
    ensures
        potential(act, l, k) <= k * n,
    decreases k,
{
    if k > 0 {
        lemma_potential_bound(act, l, rank, n, k - 1);
        assert((k - 1) * n + n == k * n) by (nonlinear_arith);
    }
}

/// Every start node is reached.
pub open spec fn starts_reached(n: nat, links: Seq<(int, int)>, act: Seq<bool>) -> bool {
    forall|w: int| 0 <= w < n && is_start(n, links, w) ==> #[trigger] act[w]
}

/// Unreached nodes are on level 0.
pub open spec fn idle_at_zero(n: nat, act: Seq<bool>, l: Seq<usize>) -> bool {
    forall|w: int| 0 <= w < n && !#[trigger] act[w] ==> l[w] == 0
}

/// Each reached node is a start on level 0 or has a reached predecessor at
/// most one level below it.
pub open spec fn supported(n: nat, links: Seq<(int, int)>, act: Seq<bool>, l: Seq<usize>) -> bool {
    forall|w: int| 0 <= w < n ==> #[trigger] backed(n, links, act, l, w)
}

/// Link `q` ends at `w` and starts at a reached node at most one level below `w`.
pub open spec fn props(links: Seq<(int, int)>, act: Seq<bool>, l: Seq<usize>, q: int, w: int) -> bool {
    0 <= q < links.len() && links[q].1 == w && act[links[q].0] && l[links[q].0] + 1 >= l[w]
}

/// A reached node `w` is a start on level 0 or is propped up by some link.
pub open spec fn backed(n: nat, links: Seq<(int, int)>, act: Seq<bool>, l: Seq<usize>, w: int) -> bool {
    act[w] ==> (is_start(n, links, w) && l[w] == 0) || exists|q: int| #[trigger] props(links, act, l, q, w)
}

/// The first `j` links, where they leave a reached node, raise the level by at least one.
pub open spec fn settled(links: Seq<(int, int)>, act: Seq<bool>, l: Seq<usize>, j: int) -> bool {
    forall|q: int| 0 <= q < j && #[trigger] act[links[q].0] ==> act[links[q].1] && l[links[q].1] >= l[links[q].0] + 1
}

proof fn lemma_potential_nonneg(act: Seq<bool>, l: Seq<usize>, k: int)
    ensures
        potential(act, l, k) >= 0,
    decreases k,
{
    if k > 0 {
        lemma_potential_nonneg(act, l, k - 1);
    }
}

/// Raising node `w` along the link `(u, w)` keeps the layering invariants.
proof fn lemma_raise(
    n: nat,
    links: Seq<(int, int)>,
    act: Seq<bool>,
    l: Seq<usize>,
    q0: int,
    nl: usize,
    bounded: bool,
    reach: Seq<bool>,
    b: Seq<nat>,
)
    requires
        act.len() == n,
        l.len() == n,
        0 <= q0 < links.len(),
        links_in_range(n, links),
        act[links[q0].0],
        nl == l[links[q0].0] + 1,
        !act[links[q0].1] || l[links[q0].1] < nl,
        starts_reached(n, links, act),
        idle_at_zero(n, act, l),
        supported(n, links, act, l),
        bounded ==> level_bound(n, links, reach, b),
        bounded ==> within(n, act, l, reach, b),
    ensures
        ({
            let w = links[q0].1;
            let a2 = act.update(w, true);
            let l2 = l.update(w, nl);
            &&& starts_reached(n, links, a2)
            &&& idle_at_zero(n, a2, l2)
            &&& supported(n, links, a2, l2)
            &&& bounded ==> within(n, a2, l2, reach, b)
            &&& potential(a2, l2, n as int) >= potential(act, l, n as int) + 1
        }),
{
    let u = links[q0].0;
    let w = links[q0].1;
    let a2 = act.update(w, true);
    let l2 = l.update(w, nl);
    lemma_potential_update(act, l, w, nl, n as int);
    assert forall|x: int| 0 <= x < n implies #[trigger] backed(n, links, a2, l2, x) by {
        if x == w {
            assert(props(links, a2, l2, q0, x));
        } else if a2[x] {
            assert(backed(n, links, act, l, x));
            if !(is_start(n, links, x) && l[x] == 0) {
                let q = choose|q: int| #[trigger] props(links, act, l, q, x);
                assert(props(links, a2, l2, q, x));
            }
        }
    }
    if bounded {
        assert(reach[u] && l[u] <= b[u]);
        assert(reach[w] && b[w] >= b[u] + 1);
    }
}

/// The positions of both ends of every edge of a valid graph.
pub(crate) fn link_list(graph: &GraphData) -> (r: Vec<(usize, usize)>)
    requires
        graph_valid(graph.ids(), graph.pairs()),
    ensures
        r@.len() == graph.pairs().len(),
        forall|j: int|
            0 <= j < r@.len() ==> (#[trigger] r@[j]).0 == graph_links(graph.ids(), graph.pairs())[j].0 && r@[j].1
                == graph_links(graph.ids(), graph.pairs())[j].1 && r@[j].0 < graph.ids().len() && r@[j].1
                < graph.ids().len(),
{
    let ghost ids = graph.ids();
    let ghost pairs = graph.pairs();
    let ids_of = graph.id_list();
    let mut r: Vec<(usize, usize)> = Vec::new();
    let mut j: usize = 0;
    while j < graph.edges.len()
        invariant
            0 <= j <= graph.edges@.len(),
            ids == graph.ids(),
            pairs == graph.pairs(),
            pairs.len() == graph.edges@.len(),
            ids_of@.map_values(|s: String| s@) == ids,
            graph_valid(ids, pairs),
            r@.len() == j,
            forall|q: int|
                0 <= q < j ==> (#[trigger] r@[q]).0 == graph_links(ids, pairs)[q].0 && r@[q].1 == graph_links(
                    ids,
                    pairs,
                )[q].1 && r@[q].0 < ids.len() && r@[q].1 < ids.len(),
        decreases graph.edges@.len() - j,
    {
        let edge = &graph.edges[j];
        assert(pairs[j as int] == (edge.source@, edge.target@));
        assert(!edge_bad(ids, pairs[j as int]));
        let a = find_id(&ids_of, edge.source.as_str());
        let b = find_id(&ids_of, edge.target.as_str());
        match (a, b) {
            (Some(a), Some(b)) => {
                proof {
                    assert forall|k: int| 0 <= k < a implies #[trigger] ids[k] != edge.source@ by {
                        assert(ids[k] == ids_of@[k]@);
                    }
                    assert forall|k: int| 0 <= k < b implies #[trigger] ids[k] != edge.target@ by {
                        assert(ids[k] == ids_of@[k]@);
                    }
                    assert(ids[a as int] == ids_of@[a as int]@);
                    assert(ids[b as int] == ids_of@[b as int]@);
                    lemma_index_of_id(ids, edge.source@, a as int);
                    lemma_index_of_id(ids, edge.target@, b as int);
                }
                r.push((a, b));
            },
            _ => {
                assert(false);
            },
        }
        j = j + 1;
    }
    r
}

/// Links between machine positions, as pairs of integers.
pub open spec fn link_ints(links: Seq<(usize, usize)>) -> Seq<(int, int)> {
    links.map_values(|p: (usize, usize)| (p.0 as int, p.1 as int))
}

/// Longest-path layering of a directed graph given as links between `n`
/// positions; `None` when the levels never settle (a cycle reached from a start).
#[verifier::rlimit(60)]
fn longest_levels(n: usize, links: &Vec<(usize, usize)>) -> (r: Option<Vec<usize>>)
    requires
        n > 0,
        forall|j: int| 0 <= j < links@.len() ==> (#[trigger] links@[j]).0 < n && links@[j].1 < n,
    ensures
        r matches Some(l) ==> layered(n as nat, link_ints(links@), l@),
        (exists|reach: Seq<bool>, b: Seq<nat>| level_bound(n as nat, link_ints(links@), reach, b)) ==> r is Some,
{
    let ghost lk = link_ints(links@);
    let ghost bounded = exists|reach: Seq<bool>, b: Seq<nat>| level_bound(n as nat, lk, reach, b);
    let ghost (reach, b) = choose|reach: Seq<bool>, b: Seq<nat>| level_bound(n as nat, lk, reach, b);
    let m = links.len();
    let mut has_in: Vec<bool> = Vec::new();
    let mut v: usize = 0;
    while v < n
        invariant
            v <= n,
            has_in@.len() == v,
            forall|w: int| 0 <= w < v ==> !#[trigger] has_in@[w],
        decreases n - v,
    {
        has_in.push(false);
        v = v + 1;
    }
    let mut j: usize = 0;
    while j < m
        invariant
            m == links@.len(),
            lk == link_ints(links@),
            forall|q: int| 0 <= q < links@.len() ==> (#[trigger] links@[q]).0 < n && links@[q].1 < n,
            j <= m,
            has_in@.len() == n,
            forall|w: int| 0 <= w < n ==> (#[trigger] has_in@[w] <==> exists|q: int| 0 <= q < j && #[trigger] lk[q].1 == w),
        decreases m - j,
    {
        let t = links[j].1;
        has_in.set(t, true);
        proof {
            assert(lk[j as int].1 == t);
            assert forall|w: int| 0 <= w < n implies (#[trigger] has_in@[w] <==> exists|q: int|
                0 <= q < j + 1 && #[trigger] lk[q].1 == w) by {
                if exists|q: int| 0 <= q < j + 1 && #[trigger] lk[q].1 == w {
                    let q = choose|q: int| 0 <= q < j + 1 && #[trigger] lk[q].1 == w;
                    if q < j {
                        assert(exists|q: int| 0 <= q < j && #[trigger] lk[q].1 == w);
                    }
                }
            }
        }
        j = j + 1;
    }
    assert forall|w: int| 0 <= w < n implies (#[trigger] has_in@[w] <==> has_in_link(lk, w)) by {
        if has_in_link(lk, w) {
            let q = choose|q: int| 0 <= q < lk.len() && #[trigger] lk[q].1 == w;
            assert(0 <= q < m && lk[q].1 == w);
        }
    }
    let mut any_source = false;
    let mut v: usize = 0;
    while v < n
        invariant
            v <= n,
            has_in@.len() == n,
            any_source <==> exists|w: int| 0 <= w < v && !#[trigger] has_in@[w],
        decreases n - v,
    {
        if !has_in[v] {
            any_source = true;
        }
        v = v + 1;
    }
    proof {
        if !any_source {
            assert forall|w: int| 0 <= w < n implies #[trigger] has_in_link(lk, w) by {
                assert(has_in@[w]);
            }
        } else {
            let w = choose|w: int| 0 <= w < n && !#[trigger] has_in@[w];
            assert(!has_in_link(lk, w));
        }
    }
    let mut act: Vec<bool> = Vec::new();
    let mut l: Vec<usize> = Vec::new();
    let mut v: usize = 0;
    while v < n
        invariant
            v <= n,
            has_in@.len() == n,
            forall|w: int| 0 <= w < n ==> (#[trigger] has_in@[w] <==> has_in_link(lk, w)),
            any_source <==> !no_sources(n as nat, lk),
            act@.len() == v,
            l@.len() == v,
            forall|w: int| 0 <= w < v ==> (#[trigger] act@[w] <==> is_start(n as nat, lk, w)),
            forall|w: int| 0 <= w < v ==> #[trigger] l@[w] == 0,
        decreases n - v,
    {
        let s = !has_in[v] || (!any_source && v == 0);
        act.push(s);
        l.push(0);
        v = v + 1;
    }
    proof {
        lemma_potential_nonneg(act@, l@, n as int);
        assert forall|q: int| 0 <= q < lk.len() implies 0 <= #[trigger] lk[q].0 < n && 0 <= lk[q].1 < n by {
            assert(links@[q].0 < n);
        }
    }
    assert(n * n + 1 <= u128::MAX) by (nonlinear_arith)
        requires
            n <= usize::MAX,
            usize::MAX <= u64::MAX,
    ;
    let budget: u128 = (n as u128) * (n as u128) + 1;
    let mut round: u128 = 0;
    while round < budget
        invariant
            m == links@.len(),
            lk == link_ints(links@),
            forall|q: int| 0 <= q < links@.len() ==> (#[trigger] links@[q]).0 < n && links@[q].1 < n,
            budget == n * n + 1,
            round <= budget,
            act@.len() == n,
            l@.len() == n,
            links_in_range(n as nat, lk),
            starts_reached(n as nat, lk, act@),
            idle_at_zero(n as nat, act@, l@),
            supported(n as nat, lk, act@, l@),
            bounded == (exists|reach: Seq<bool>, b: Seq<nat>| level_bound(n as nat, lk, reach, b)),
            bounded ==> level_bound(n as nat, lk, reach, b),
            bounded ==> within(n as nat, act@, l@, reach, b),
            bounded ==> potential(act@, l@, n as int) >= round,
        decreases budget - round,
    {
        let ghost act0 = act@;
        let ghost l0 = l@;
        let mut changed = false;
        let mut j: usize = 0;
        while j < m
            invariant
                m == links@.len(),
                lk == link_ints(links@),
                forall|q: int| 0 <= q < links@.len() ==> (#[trigger] links@[q]).0 < n && links@[q].1 < n,
                budget == n * n + 1,
                round < budget,
                j <= m,
                act@.len() == n,
                l@.len() == n,
                links_in_range(n as nat, lk),
                starts_reached(n as nat, lk, act@),
                idle_at_zero(n as nat, act@, l@),
                supported(n as nat, lk, act@, l@),
                bounded == (exists|reach: Seq<bool>, b: Seq<nat>| level_bound(n as nat, lk, reach, b)),
                bounded ==> level_bound(n as nat, lk, reach, b),
                bounded ==> within(n as nat, act@, l@, reach, b),
                bounded ==> potential(act@, l@, n as int) >= round + if changed { 1int } else { 0int },
                !changed ==> act@ == act0 && l@ == l0,
                !changed ==> settled(lk, act@, l@, j as int),
            decreases m - j,
        {
            let (u, w) = links[j];
            assert(lk[j as int] == (u as int, w as int));
            if act[u] {
                if l[u] == usize::MAX {
                    proof {
                        if bounded {
                            assert(b[u as int] < n);
                            assert(act@[u as int]);
                            assert(l@[u as int] <= b[u as int]);
                            assert(false);
                        }
                    }
                    return None;
                }
                let nl = l[u] + 1;
                if !act[w] || l[w] < nl {
                    proof {
                        lemma_raise(n as nat, lk, act@, l@, j as int, nl, bounded, reach, b);
                    }
                    act.set(w, true);
                    l.set(w, nl);
                    changed = true;
                }
            }
            j = j + 1;
        }
        if !changed {
            let ghost lv = l@;
            let ghost av = act@;
            proof {
                assert forall|x: int| 0 <= x < n implies #[trigger] layer_backed(n as nat, lk, av, lv, x) by {
                    assert(backed(n as nat, lk, av, lv, x));
                    if av[x] && !(is_start(n as nat, lk, x) && lv[x] == 0) {
                        let q = choose|q: int| #[trigger] props(lk, av, lv, q, x);
                        assert(settled(lk, av, lv, m as int));
                        assert(av[lk[q].0]);
                        assert(feeds(lk, av, lv, q, x, lv[x] as int));
                    }
                }
                assert(longest_layering(n as nat, lk, lv, av));
                assert(lk == link_ints(links@));
                assert(lv == l@);
                assert(longest_layering(n as nat, link_ints(links@), l@, av));
                assert(layered(n as nat, link_ints(links@), l@));
            }
            return Some(l);
        }
        round = round + 1;
    }
    proof {
        if bounded {
            lemma_potential_bound(act@, l@, b, n as nat, n as int);
            assert(n * n < budget);
        }
    }
    None
}

/// `l` is the breadth-first layering for some set of reached nodes.
pub open spec fn bfs_layered(n: nat, links: Seq<(int, int)>, l: Seq<usize>) -> bool {
    exists|act: Seq<bool>| #[trigger] bfs_layering(n, links, l, act)
}

/// The number of `true` entries among the first `k`.
pub open spec fn count_true(s: Seq<bool>, k: int) -> int
    decreases k,
{
    if k <= 0 {
        0
    } else {
        count_true(s, k - 1) + if s[k - 1] { 1int } else { 0int }
    }
}

proof fn lemma_count_set(s: Seq<bool>, v: int, k: int)
    requires
        0 <= v < s.len(),
        !s[v],
        0 <= k <= s.len(),
    ensures
        count_true(s.update(v, true), k) == count_true(s, k) + if v < k { 1int } else { 0int },
    decreases k,
{
    if k > 0 {
        lemma_count_set(s, v, k - 1);
    }
}

proof fn lemma_count_bound(s: Seq<bool>, k: int)
    requires
        0 <= k,
    ensures
        count_true(s, k) <= k,
    decreases k,
{
    if k > 0 {
        lemma_count_bound(s, k - 1);
    }
}

/// Links out of nodes on level `d` lead, so far as the first `j` links go, to reached nodes.
pub open spec fn frontier_done(links: Seq<(int, int)>, act: Seq<bool>, l: Seq<usize>, d: int, j: int) -> bool {
    forall|q: int|
        0 <= q < j ==> (#[trigger] act[links[q].0] && l[links[q].0] == d ==> act[links[q].1]) && (act[links[q].1]
            && l[links[q].1] == d ==> act[links[q].0])
}

/// Along links out of reached nodes below level `d`, the other end is reached
/// and at most one level further.
pub open spec fn closed_below(links: Seq<(int, int)>, act: Seq<bool>, l: Seq<usize>, d: int) -> bool {
    forall|q: int|
        0 <= q < links.len() ==> (#[trigger] act[links[q].0] && l[links[q].0] < d ==> act[links[q].1] && l[links[q].1]
            <= l[links[q].0] + 1) && (act[links[q].1] && l[links[q].1] < d ==> act[links[q].0] && l[links[q].0]
            <= l[links[q].1] + 1)
}

/// Every reached node other than node 0 has a reached neighbour one level below.
pub open spec fn all_bfs_backed(n: nat, links: Seq<(int, int)>, act: Seq<bool>, l: Seq<usize>) -> bool {
    forall|v: int| 0 < v < n ==> #[trigger] bfs_backed(links, act, l, v)
}

/// Reached nodes are on level `d` at most.
pub open spec fn at_most(n: nat, act: Seq<bool>, l: Seq<usize>, d: int) -> bool {
    forall|v: int| 0 <= v < n && #[trigger] act[v] ==> l[v] <= d
}

/// Reaching node `w` on level `d + 1` from a neighbour on level `d` keeps the
/// breadth-first invariants.
#[verifier::spinoff_prover]
proof fn lemma_bfs_visit(
    n: nat,
    links: Seq<(int, int)>,
    act: Seq<bool>,
    l: Seq<usize>,
    d: int,
    j: int,
    w: int,
    from: int,
    act0: Seq<bool>,
)
    requires
        act.len() == n,
        l.len() == n,
        links_in_range(n, links),
        0 <= j < links.len(),
        (links[j].0 == from && links[j].1 == w) || (links[j].1 == from && links[j].0 == w),
        0 <= w < n,
        !act[w],
        act[from],
        l[from] == d,
        d + 1 <= usize::MAX,
        0 < w,
        act[0],
        l[0] == 0,
        idle_at_zero(n, act, l),
        all_bfs_backed(n, links, act, l),
        at_most(n, act, l, d + 1),
        closed_below(links, act, l, d),
        forall|v: int| 0 <= v < n && #[trigger] act[v] && !act0[v] ==> l[v] == d + 1,
    ensures
        ({
            let a2 = act.update(w, true);
            let l2 = l.update(w, (d + 1) as usize);
            &&& a2[0] && l2[0] == 0
            &&& idle_at_zero(n, a2, l2)
            &&& all_bfs_backed(n, links, a2, l2)
            &&& at_most(n, a2, l2, d + 1)
            &&& closed_below(links, a2, l2, d)
            &&& forall|v: int| 0 <= v < n && #[trigger] a2[v] && !act0[v] ==> l2[v] == d + 1
        }),
{
    let a2 = act.update(w, true);
    let l2 = l.update(w, (d + 1) as usize);
    assert forall|v: int| 0 < v < n implies #[trigger] bfs_backed(links, a2, l2, v) by {
        if v == w {
            assert(touches(links, a2, l2, j, v, l2[v] as int));
        } else if a2[v] {
            assert(bfs_backed(links, act, l, v));
            let q = choose|q: int| #[trigger] touches(links, act, l, q, v, l[v] as int);
            assert(touches(links, a2, l2, q, v, l2[v] as int));
        }
    }
    assert forall|q: int| 0 <= q < links.len() implies (#[trigger] a2[links[q].0] && l2[links[q].0] < d ==> a2[links[q].1]
        && l2[links[q].1] <= l2[links[q].0] + 1) && (a2[links[q].1] && l2[links[q].1] < d ==> a2[links[q].0]
        && l2[links[q].0] <= l2[links[q].1] + 1) by {
        assert(closed_below(links, act, l, d));
        assert(0 <= links[q].0 < n && 0 <= links[q].1 < n);
        assert(act[links[q].0] && l[links[q].0] < d ==> act[links[q].1] && l[links[q].1] <= l[links[q].0] + 1);
        assert(act[links[q].1] && l[links[q].1] < d ==> act[links[q].0] && l[links[q].0] <= l[links[q].1] + 1);
    }
}

/// A breadth-first round that reaches nothing new leaves a complete layering.
proof fn lemma_bfs_finish(n: nat, lk: Seq<(int, int)>, av: Seq<bool>, lv: Seq<usize>, d: int)
    requires
        av.len() == n,
        lv.len() == n,
        0 <= d < n,
        links_in_range(n, lk),
        av[0] && lv[0] == 0,
        idle_at_zero(n, av, lv),
        all_bfs_backed(n, lk, av, lv),
        at_most(n, av, lv, d),
        closed_below(lk, av, lv, d),
        frontier_done(lk, av, lv, d, lk.len() as int),
    ensures
        bfs_layering(n, lk, lv, av),
        forall|v: int| 0 <= v < n ==> #[trigger] lv[v] < n,
{
    assert forall|q: int| 0 <= q < lk.len() implies #[trigger] av[lk[q].0] ==> av[lk[q].1] && lv[lk[q].1] <= lv[lk[q].0]
        + 1 by {
        assert(0 <= lk[q].0 < n && 0 <= lk[q].1 < n);
        assert(av[lk[q].0] ==> lv[lk[q].0] <= d);
        assert(av[lk[q].1] ==> lv[lk[q].1] <= d);
    }
    assert forall|q: int| 0 <= q < lk.len() implies #[trigger] av[lk[q].1] ==> av[lk[q].0] && lv[lk[q].0] <= lv[lk[q].1]
        + 1 by {
        assert(0 <= lk[q].0 < n && 0 <= lk[q].1 < n);
        assert(av[lk[q].0] ==> lv[lk[q].0] <= d);
        assert(av[lk[q].1] ==> lv[lk[q].1] <= d);
    }
    assert forall|v: int| 0 <= v < n implies #[trigger] lv[v] < n by {
        assert(av[v] ==> lv[v] <= d);
    }
}

/// Breadth-first layering of an undirected graph given as links between `n` positions, from position 0.
#[verifier::rlimit(60)]
fn bfs_levels(n: usize, links: &Vec<(usize, usize)>) -> (r: Vec<usize>)
    requires
        n > 0,
        forall|j: int| 0 <= j < links@.len() ==> (#[trigger] links@[j]).0 < n && links@[j].1 < n,
    ensures
        bfs_layered(n as nat, link_ints(links@), r@),
        forall|v: int| 0 <= v < n ==> #[trigger] r@[v] < n,
{
    let ghost lk = link_ints(links@);
    let m = links.len();
    let mut act: Vec<bool> = Vec::new();
    let mut l: Vec<usize> = Vec::new();
    let mut v: usize = 0;
    while v < n
        invariant
            n > 0,
            v <= n,
            act@.len() == v,
            l@.len() == v,
            forall|w: int| 0 <= w < v ==> !#[trigger] act@[w] && l@[w] == 0,
        decreases n - v,
    {
        act.push(false);
        l.push(0);
        v = v + 1;
    }
    assert(v == n && 0 < n);
    assert(!act@[0] && l@[0] == 0);
    proof {
        lemma_count_set(act@, 0, n as int);
        assert(count_true(act@, n as int) == 0) by {
            assert forall|k: int| 0 <= k <= n implies #[trigger] count_true(act@, k) == 0 by {
                lemma_count_zero(act@, k);
            }
        }
        assert forall|q: int| 0 <= q < lk.len() implies 0 <= #[trigger] lk[q].0 < n && 0 <= lk[q].1 < n by {
            assert(links@[q].0 < n);
        }
    }
    let ghost act_init = act@;
    let ghost l_init = l@;
    act.set(0, true);
    proof {
        assert forall|w: int| 0 <= w < n && #[trigger] act@[w] implies l@[w] <= 0 by {
            if w != 0 {
                assert(!act_init[w] && l_init[w] == 0);
            }
        }
        assert forall|w: int| 0 <= w < n && !#[trigger] act@[w] implies l@[w] == 0 by {
            assert(!act_init[w] && l_init[w] == 0);
        }
        assert forall|w: int| 0 < w < n implies #[trigger] bfs_backed(lk, act@, l@, w) by {
            assert(!act_init[w] && l_init[w] == 0);
        }
    }
    let mut visited: usize = 1;
    let mut d: usize = 0;
    loop
        invariant
            m == links@.len(),
            lk == link_ints(links@),
            links_in_range(n as nat, lk),
            n > 0,
            act@.len() == n,
            l@.len() == n,
            act@[0] && l@[0] == 0,
            visited == count_true(act@, n as int),
            visited <= n,
            d < visited,
            idle_at_zero(n as nat, act@, l@),
            all_bfs_backed(n as nat, lk, act@, l@),
            at_most(n as nat, act@, l@, d as int),
            closed_below(lk, act@, l@, d as int),
        decreases n - visited,
    {
        let ghost act0 = act@;
        let ghost l0 = l@;
        let ghost visited0 = visited;
        let mut changed = false;
        let mut j: usize = 0;
        while j < m
            invariant
                m == links@.len(),
                lk == link_ints(links@),
                links_in_range(n as nat, lk),
                n > 0,
                act@.len() == n,
                l@.len() == n,
                act@[0] && l@[0] == 0,
                visited == count_true(act@, n as int),
                visited <= n,
                d < visited0,
                visited0 <= visited,
                changed == (visited > visited0),
                idle_at_zero(n as nat, act@, l@),
                all_bfs_backed(n as nat, lk, act@, l@),
                at_most(n as nat, act@, l@, d + 1),
                closed_below(lk, act@, l@, d as int),
                forall|x: int| 0 <= x < n && #[trigger] act@[x] && !act0[x] ==> l@[x] == d + 1,
                forall|x: int| 0 <= x < n && #[trigger] act0[x] ==> act@[x] && l@[x] <= d,
                frontier_done(lk, act@, l@, d as int, j as int),
                !changed ==> act@ == act0 && l@ == l0,
            decreases m - j,
        {
            let (a, b) = links[j];
            assert(lk[j as int] == (a as int, b as int));
            let ghost before_a = act@;
            let ghost before_l = l@;
            if act[a] && l[a] == d && !act[b] {
                proof {
                    lemma_bfs_visit(n as nat, lk, act@, l@, d as int, j as int, b as int, a as int, act0);
                    lemma_count_set(act@, b as int, n as int);
                    lemma_count_bound(act@.update(b as int, true), n as int);
                }
                act.set(b, true);
                l.set(b, d + 1);
                visited = visited + 1;
                changed = true;
            } else if act[b] && l[b] == d && !act[a] {
                proof {
                    lemma_bfs_visit(n as nat, lk, act@, l@, d as int, j as int, a as int, b as int, act0);
                    lemma_count_set(act@, a as int, n as int);
                    lemma_count_bound(act@.update(a as int, true), n as int);
                }
                act.set(a, true);
                l.set(a, d + 1);
                visited = visited + 1;
                changed = true;
            }
            proof {
                assert forall|q: int| 0 <= q < j + 1 implies (#[trigger] act@[lk[q].0] && l@[lk[q].0] == d ==> act@[lk[q].1])
                    && (act@[lk[q].1] && l@[lk[q].1] == d ==> act@[lk[q].0]) by {
                    if q < j {
                        assert(before_a[lk[q].0] && before_l[lk[q].0] == d ==> before_a[lk[q].1]);
                        assert(before_a[lk[q].1] && before_l[lk[q].1] == d ==> before_a[lk[q].0]);
                        assert(before_a[lk[q].0] ==> act@[lk[q].0] && l@[lk[q].0] == before_l[lk[q].0]);
                        assert(before_a[lk[q].1] ==> act@[lk[q].1] && l@[lk[q].1] == before_l[lk[q].1]);
                    }
                }
            }
            j = j + 1;
        }
        if !changed {
            proof {
                assert(act@ =~= act0);
                assert forall|x: int| 0 <= x < n && #[trigger] act@[x] implies l@[x] <= d by {
                    assert(act0[x]);
                }
                assert(at_most(n as nat, act@, l@, d as int));
                lemma_bfs_finish(n as nat, lk, act@, l@, d as int);
                assert(bfs_layered(n as nat, link_ints(links@), l@));
            }
            return l;
        }
        proof {
            assert forall|q: int| 0 <= q < lk.len() implies (#[trigger] act@[lk[q].0] && l@[lk[q].0] < d + 1 ==> act@[lk[q].1]
                && l@[lk[q].1] <= l@[lk[q].0] + 1) && (act@[lk[q].1] && l@[lk[q].1] < d + 1 ==> act@[lk[q].0]
                && l@[lk[q].0] <= l@[lk[q].1] + 1) by {
                assert(frontier_done(lk, act@, l@, d as int, m as int));
                assert(closed_below(lk, act@, l@, d as int));
                assert(0 <= lk[q].0 < n && 0 <= lk[q].1 < n);
                assert(at_most(n as nat, act@, l@, d + 1));
                assert(act@[lk[q].0] ==> l@[lk[q].0] <= d + 1);
                assert(act@[lk[q].1] ==> l@[lk[q].1] <= d + 1);
            }
        }
        d = d + 1;
    }
}

proof fn lemma_count_zero(s: Seq<bool>, k: int)
    requires
        forall|w: int| 0 <= w < k ==> !#[trigger] s[w],
    ensures
        count_true(s, k) == 0,
    decreases k,
{
    if k > 0 {
        lemma_count_zero(s, k - 1);
    }
}

/// The longest-path layering of a valid directed graph, when its levels settle.
fn directed_levels(graph: &GraphData) -> (r: Option<Vec<usize>>)
    requires
        graph_valid(graph.ids(), graph.pairs()),
    ensures
        r matches Some(l) ==> l@.len() == graph.nodes@.len(),
        r matches Some(l) ==> forall|k: int| 0 <= k < l@.len() ==> #[trigger] l@[k] < graph.nodes@.len(),
        r matches Some(l) ==> layered(graph.nodes@.len(), graph_links(graph.ids(), graph.pairs()), l@),
        r is Some <==> exists|l: Seq<usize>| layered(graph.nodes@.len(), graph_links(graph.ids(), graph.pairs()), l),
        (exists|rank: Seq<nat>| acyclic_rank(graph.nodes@.len(), graph_links(graph.ids(), graph.pairs()), rank))
            ==> r is Some,
{
    let links = link_list(graph);
    let n = graph.nodes.len();
    proof {
        let lk = link_ints(links@);
        assert(lk =~= graph_links(graph.ids(), graph.pairs()));
        assert forall|q: int| 0 <= q < lk.len() implies 0 <= #[trigger] lk[q].0 < n && 0 <= lk[q].1 < n by {
            assert(links@[q].0 < n);
        }
        if exists|rank: Seq<nat>| acyclic_rank(n as nat, lk, rank) {
            let rank = choose|rank: Seq<nat>| acyclic_rank(n as nat, lk, rank);
            lemma_rank_bounds(n as nat, lk, rank);
        }
        if exists|l: Seq<usize>| layered(n as nat, lk, l) {
            let l = choose|l: Seq<usize>| layered(n as nat, lk, l);
            let act = choose|act: Seq<bool>| #[trigger] longest_layering(n as nat, lk, l, act);
            lemma_layering_bounds(n as nat, lk, l, act);
        }
    }
    let r = longest_levels(n, &links);
    proof {
        if r is Some {
            let lk = link_ints(links@);
            let act = choose|act: Seq<bool>| #[trigger] longest_layering(n as nat, lk, r->0@, act);
            assert forall|k: int| 0 <= k < r->0@.len() implies #[trigger] r->0@[k] < n by {
                lemma_layer_below_n(n as nat, lk, r->0@, act, k);
            }
        }
    }
    r
}

/// Whether the layering of a valid graph settles: always for an undirected
/// graph; for a directed one exactly when it has a longest-path layering, that
/// is, when no cycle is reached from a start (every acyclic graph settles).
pub fn levels_settle(graph: &GraphData) -> (b: bool)
    requires
        graph_valid(graph.ids(), graph.pairs()),
    ensures
        b == (graph.directed ==> exists|l: Seq<usize>|
            layered(graph.nodes@.len(), graph_links(graph.ids(), graph.pairs()), l)),
        graph.directed && (exists|rank: Seq<nat>|
            acyclic_rank(graph.nodes@.len(), graph_links(graph.ids(), graph.pairs()), rank)) ==> b,
{
    if graph.directed {
        directed_levels(graph).is_some()
    } else {
        true
    }
}

/// Layers per node position: for a directed graph, the longest path from the
/// nodes without incoming edges (from the first node when every node has one);
/// for an undirected graph, the breadth-first distance from the first node.
/// Nodes not reached are on layer 0. A directed graph whose layering never
/// settles (a cycle reached from a start) has no layers: `levels_settle`
/// tells such graphs apart.
pub fn assign_levels(graph: &GraphData) -> (l: Vec<usize>)
    requires
        graph_valid(graph.ids(), graph.pairs()),
        graph.directed ==> exists|l: Seq<usize>|
            layered(graph.nodes@.len(), graph_links(graph.ids(), graph.pairs()), l),
    ensures
        l@.len() == graph.nodes@.len(),
        forall|k: int| 0 <= k < l@.len() ==> #[trigger] l@[k] < graph.nodes@.len(),
        graph.directed ==> layered(graph.nodes@.len(), graph_links(graph.ids(), graph.pairs()), l@),
        !graph.directed ==> bfs_layered(graph.nodes@.len(), graph_links(graph.ids(), graph.pairs()), l@),
{
    if graph.directed {
        match directed_levels(graph) {
            Some(l) => l,
            None => {
                assert(false);
                Vec::new()
            },
        }
    } else {
        let links = link_list(graph);
        let n = graph.nodes.len();
        proof {
            assert(link_ints(links@) =~= graph_links(graph.ids(), graph.pairs()));
        }
        let l = bfs_levels(n, &links);
        proof {
            let act = choose|act: Seq<bool>| #[trigger] bfs_layering(n as nat, link_ints(links@), l@, act);
        }
        l
    }
}

/// The number of parent steps from `i` to the node with id `target`, within `fuel` steps.
pub open spec fn steps_to(ids: Seq<Seq<char>>, parents: Seq<Option<Seq<char>>>, i: int, target: Seq<char>, fuel: nat) -> nat
    decreases fuel,
{
    if ids[i] == target {
        0
    } else {
        match parents[i] {
            None => 0,
            Some(p) => if fuel > 0 {
                1 + steps_to(ids, parents, index_of_id(ids, p), target, (fuel - 1) as nat)
            } else {
                0
            },
        }
    }
}

proof fn lemma_steps_fuel(ids: Seq<Seq<char>>, parents: Seq<Option<Seq<char>>>, i: int, t: Seq<char>, f: nat, g: nat)
    requires
        reaches(ids, parents, i, t, f),
        f <= g,
    ensures
        reaches(ids, parents, i, t, g),
        steps_to(ids, parents, i, t, f) == steps_to(ids, parents, i, t, g),
    decreases f,
{
    if ids[i] != t {
        let p = parents[i]->Some_0;
        lemma_steps_fuel(ids, parents, index_of_id(ids, p), t, (f - 1) as nat, (g - 1) as nat);
    }
}

/// The depth of every node of a valid tree, by position: the number of parent
/// steps up to the root.
pub fn depths_from_root(tree: &TreeData) -> (d: Vec<usize>)
    requires
        tree_valid(tree.root@, tree.ids(), tree.parents()),
    ensures
        d@.len() == tree.nodes@.len(),
        forall|i: int|
            0 <= i < d@.len() ==> #[trigger] d@[i] == steps_to(
                tree.ids(),
                tree.parents(),
                i,
                tree.root@,
                tree.nodes@.len() as nat,
            ),
{
    let ghost ids = tree.ids();
    let ghost parents = tree.parents();
    let ghost root = tree.root@;
    let n = tree.nodes.len();
    let ids_of = tree.node_ids();
    let mut d: Vec<usize> = Vec::new();
    let mut i: usize = 0;
    while i < n
        invariant
            n == tree.nodes@.len(),
            ids == tree.ids(),
            parents == tree.parents(),
            root == tree.root@,
            ids.len() == n,
            parents.len() == n,
            ids_of@.map_values(|s: String| s@) == ids,
            tree_valid(root, ids, parents),
            i <= n,
            d@.len() == i,
            forall|k: int| 0 <= k < i ==> #[trigger] d@[k] == steps_to(ids, parents, k, root, n as nat),
        decreases n - i,
    {
        proof {
            valid_tree_nodes_reach_root(*tree, i as int);
        }
        let mut cur: usize = i;
        let mut steps: usize = 0;
        while !str_eq(tree.nodes[cur].id.as_str(), tree.root.as_str())
            invariant
                n == tree.nodes@.len(),
                ids == tree.ids(),
                parents == tree.parents(),
                root == tree.root@,
                ids.len() == n,
                parents.len() == n,
                ids_of@.map_values(|s: String| s@) == ids,
                tree_valid(root, ids, parents),
                cur < n,
                steps <= n,
                reaches(ids, parents, cur as int, root, (n - steps) as nat),
                steps_to(ids, parents, i as int, root, n as nat) == steps + steps_to(
                    ids,
                    parents,
                    cur as int,
                    root,
                    (n - steps) as nat,
                ),
            decreases n - steps,
        {
            assert(ids[cur as int] == tree.nodes@[cur as int].id@);
            assert(ids[cur as int] != root);
            let p = tree.nodes[cur].parent.as_ref().unwrap();
            assert(parents[cur as int] == Some(p@));
            match find_id(&ids_of, p.as_str()) {
                Some(j) => {
                    proof {
                        assert(ids[j as int] == ids_of@[j as int]@);
                        assert forall|k: int| 0 <= k < j implies #[trigger] ids[k] != p@ by {
                            assert(ids[k] == ids_of@[k]@);
                        }
                        lemma_index_of_id(ids, p@, j as int);
                    }
                    cur = j;
                },
                None => {
                    proof {
                        assert(tree_valid(root, ids, parents));
                        assert(0 <= cur < ids.len());
                        assert(!parent_missing(ids, parents, cur as int));
                    }
                    assert(false);
                    cur = 0;
                },
            }
            steps = steps + 1;
        }
        assert(ids[cur as int] == tree.nodes@[cur as int].id@);
        proof {
            lemma_steps_fuel(ids, parents, i as int, root, n as nat, n as nat);
        }
        d.push(steps);
        i = i + 1;
    }
    d
}

/// In a valid tree the root has depth 0 and every other node is one deeper than its parent.
pub proof fn depth_steps(t: TreeData, i: int)
    requires
        tree_valid(t.root@, t.ids(), t.parents()),
        0 <= i < t.nodes@.len(),
    ensures
        t.ids()[i] == t.root@ ==> steps_to(t.ids(), t.parents(), i, t.root@, t.nodes@.len() as nat) == 0,
        t.ids()[i] != t.root@ ==> t.parents()[i] is Some && steps_to(
            t.ids(),
            t.parents(),
            i,
            t.root@,
            t.nodes@.len() as nat,
        ) == 1 + steps_to(
            t.ids(),
            t.parents(),
            index_of_id(t.ids(), t.parents()[i]->Some_0),
            t.root@,
            t.nodes@.len() as nat,
        ),
{
    let n = t.nodes@.len() as nat;
    valid_tree_nodes_reach_root(t, i);
    if t.ids()[i] != t.root@ {
        let q = index_of_id(t.ids(), t.parents()[i]->Some_0);
        lemma_steps_fuel(t.ids(), t.parents(), q, t.root@, (n - 1) as nat, n);
    }
}

/// How many of the first `k` nodes are on layer `lv`.
pub open spec fn on_layer_before(levels: Seq<usize>, k: int, lv: usize) -> nat
    decreases k,
{
    if k <= 0 {
        0
    } else {
        on_layer_before(levels, k - 1, lv) + if levels[k - 1] == lv {
            1nat
        } else {
            0nat
        }
    }
}

proof fn lemma_on_layer_bound(levels: Seq<usize>, k: int, lv: usize)
    requires
        0 <= k,
    ensures
        on_layer_before(levels, k, lv) <= k,
    decreases k,
{
    if k > 0 {
        lemma_on_layer_bound(levels, k - 1, lv);
    }
}

/// Counting grows: a node on layer `lv` at position `k` is counted by every longer prefix.
proof fn lemma_on_layer_grows(levels: Seq<usize>, k: int, k2: int, lv: usize)
    requires
        0 <= k < k2,
        levels[k] == lv,
    ensures
        on_layer_before(levels, k, lv) < on_layer_before(levels, k2, lv),
    decreases k2 - k,
{
    if k2 > k + 1 {
        lemma_on_layer_grows(levels, k, k2 - 1, lv);
    }
}

/// Nodes on one layer get distinct slots, each below the layer's size.
pub proof fn layer_slots_distinct(levels: Seq<usize>, k: int, k2: int)
    requires
        0 <= k < k2 < levels.len(),
        levels[k] == levels[k2],
    ensures
        on_layer_before(levels, k, levels[k]) < on_layer_before(levels, k2, levels[k2]),
        on_layer_before(levels, k2, levels[k2]) < on_layer_before(levels, levels.len() as int, levels[k2]),
{
    lemma_on_layer_grows(levels, k, k2, levels[k]);
    lemma_on_layer_grows(levels, k2, levels.len() as int, levels[k2]);
}

/// For each node, its slot on its layer (how many nodes before it share the
/// layer) and the number of nodes on that layer.
pub fn layer_slots(levels: &Vec<usize>) -> (r: Vec<(usize, usize)>)
    requires
        forall|k: int| 0 <= k < levels@.len() ==> #[trigger] levels@[k] < levels@.len(),
    ensures
        r@.len() == levels@.len(),
        forall|k: int|
            0 <= k < levels@.len() ==> #[trigger] r@[k] == (
                on_layer_before(levels@, k, levels@[k]) as usize,
                on_layer_before(levels@, levels@.len() as int, levels@[k]) as usize,
            ),
{
    let n = levels.len();
    let mut totals: Vec<usize> = Vec::new();
    let mut v: usize = 0;
    while v < n
        invariant
            v <= n,
            totals@.len() == v,
            forall|w: int| 0 <= w < v ==> #[trigger] totals@[w] == 0,
        decreases n - v,
    {
        totals.push(0);
        v = v + 1;
    }
    let mut k: usize = 0;
    while k < n
        invariant
            n == levels@.len(),
            forall|q: int| 0 <= q < n ==> #[trigger] levels@[q] < n,
            k <= n,
            totals@.len() == n,
            forall|w: int| 0 <= w < n ==> #[trigger] totals@[w] == on_layer_before(levels@, k as int, w as usize),
        decreases n - k,
    {
        let lv = levels[k];
        proof { lemma_on_layer_bound(levels@, k as int, lv); }
        let t = totals[lv];
        totals.set(lv, t + 1);
        k = k + 1;
    }
    let mut running: Vec<usize> = Vec::new();
    let mut v: usize = 0;
    while v < n
        invariant
            v <= n,
            running@.len() == v,
            forall|w: int| 0 <= w < v ==> #[trigger] running@[w] == 0,
        decreases n - v,
    {
        running.push(0);
        v = v + 1;
    }
    let mut r: Vec<(usize, usize)> = Vec::new();
    let mut k: usize = 0;
    while k < n
        invariant
            n == levels@.len(),
            forall|q: int| 0 <= q < n ==> #[trigger] levels@[q] < n,
            k <= n,
            totals@.len() == n,
            running@.len() == n,
            forall|w: int| 0 <= w < n ==> #[trigger] totals@[w] == on_layer_before(levels@, n as int, w as usize),
            forall|w: int| 0 <= w < n ==> #[trigger] running@[w] == on_layer_before(levels@, k as int, w as usize),
            r@.len() == k,
            forall|q: int|
                0 <= q < k ==> #[trigger] r@[q] == (
                    on_layer_before(levels@, q, levels@[q]) as usize,
                    on_layer_before(levels@, n as int, levels@[q]) as usize,
                ),
        decreases n - k,
    {
        let lv = levels[k];
        proof { lemma_on_layer_bound(levels@, k as int, lv); }
        let c = running[lv];
        r.push((c, totals[lv]));
        running.set(lv, c + 1);
        k = k + 1;
    }
    r
}

/// The number of layers: one more than the highest level, and 1 when there is no node.
pub fn layer_count(levels: &Vec<usize>) -> (c: usize)
    requires
        forall|k: int| 0 <= k < levels@.len() ==> #[trigger] levels@[k] < levels@.len(),
    ensures
        c >= 1,
        forall|k: int| 0 <= k < levels@.len() ==> #[trigger] levels@[k] < c,
        c == 1 || exists|k: int| 0 <= k < levels@.len() && levels@[k] + 1 == c,
{
    let mut top: usize = 0;
    let mut k: usize = 0;
    while k < levels.len()
        invariant
            k <= levels@.len(),
            forall|q: int| 0 <= q < levels@.len() ==> #[trigger] levels@[q] < levels@.len(),
            forall|q: int| 0 <= q < k ==> #[trigger] levels@[q] <= top,
            top == 0 || exists|q: int| 0 <= q < k && levels@[q] == top,
            top < levels@.len() || top == 0,
        decreases levels@.len() - k,
    {
        if levels[k] > top {
            top = levels[k];
        }
        k = k + 1;
    }
    top + 1
}

/// The smallest `c` with `c * c >= n` (the ceiling of the square root).
pub fn ceil_sqrt(n: usize) -> (c: usize)
    ensures
        c * c >= n,
        c == 0 || (c - 1) * (c - 1) < n,
{
    if n == 0 {
        return 0;
    }
    let target: u128 = n as u128;
    let mut lo: u128 = 0;
    let mut hi: u128 = n as u128;
    assert(hi * hi >= hi) by (nonlinear_arith)
        requires
            hi >= 1,
    ;
    while hi - lo > 1
        invariant
            target == n,
            n >= 1,
            lo < hi,
            hi <= n,
            lo * lo < target,
            hi * hi >= target,
        decreases hi - lo,
    {
        let mid: u128 = lo + (hi - lo) / 2;
        assert(mid * mid <= u64::MAX * u64::MAX) by (nonlinear_arith)
            requires
                mid <= u64::MAX,
        ;
        if mid * mid >= target {
            hi = mid;
        } else {
            lo = mid;
        }
    }
    hi as usize
}

/// The shape of a facet grid for `panel_count` panels: the columns asked for,
/// or the ceiling of the square root of the count, at least one; then as many
/// rows as it takes.
pub fn facet_grid(panel_count: usize, ncol: Option<usize>) -> (r: (usize, usize))
    requires
        panel_count > 0,
    ensures
        r.0 == (match ncol {
            Some(c) => if c >= 1 { c as int } else { 1 },
            None => { let s = ceil_root(panel_count as int); if s >= 1 { s } else { 1 } },
        }),
        r.1 * r.0 >= panel_count,
        (r.1 - 1) * r.0 < panel_count,
{
    let cols = match ncol {
        Some(c) => c,
        None => {
            let s = ceil_sqrt(panel_count);
            proof { lemma_ceil_root_unique(panel_count as int, s as int); }
            if s >= 1 { s } else { 1 }
        },
    };
    let cols = if cols >= 1 { cols } else { 1 };
    let q = panel_count / cols;
    proof {
        vstd::arithmetic::div_mod::lemma_fundamental_div_mod(panel_count as int, cols as int);
        if panel_count % cols != 0 {
            assert(q < panel_count) by (nonlinear_arith)
                requires
                    panel_count == cols * q + panel_count % cols,
                    panel_count % cols != 0,
                    cols >= 2 || panel_count % cols == 0,
                    q >= 0,
            ;
        }
    }
    let rows = if panel_count % cols == 0 { q } else { q + 1 };
    proof {
        vstd::arithmetic::div_mod::lemma_fundamental_div_mod(panel_count as int, cols as int);
        let q = panel_count as int / cols as int;
        let m = panel_count as int % cols as int;
        assert(panel_count == cols * q + m);
        if m == 0 {
            assert(rows * cols >= panel_count) by (nonlinear_arith)
                requires
                    rows == q,
                    panel_count == cols * q + m,
                    m == 0,
            ;
            assert((rows - 1) * cols < panel_count) by (nonlinear_arith)
                requires
                    rows == q,
                    panel_count == cols * q,
                    cols >= 1,
            ;
        } else {
            assert(rows * cols >= panel_count) by (nonlinear_arith)
                requires
                    rows == q + 1,
                    panel_count == cols * q + m,
                    m < cols,
            ;
            assert((rows - 1) * cols < panel_count) by (nonlinear_arith)
                requires
                    rows == q + 1,
                    panel_count == cols * q + m,
                    m > 0,
            ;
        }
    }
    (cols, rows)
}

/// The ceiling of the square root of a non-negative integer.
pub open spec fn ceil_root(n: int) -> int {
    choose|c: int| #[trigger] is_ceil_root(n, c)
}

/// `c` is the ceiling of the square root of `n`.
pub open spec fn is_ceil_root(n: int, c: int) -> bool {
    c >= 0 && c * c >= n && (c == 0 || (c - 1) * (c - 1) < n)
}

proof fn lemma_ceil_root_unique(n: int, c: int)
    requires
        n >= 0,
        c >= 0,
        c * c >= n,
        c == 0 || (c - 1) * (c - 1) < n,
    ensures
        ceil_root(n) == c,
{
    assert(is_ceil_root(n, c));
    let d = ceil_root(n);
    assert(is_ceil_root(n, d));
    if d < c {
        assert(d <= c - 1);
        assert(d * d <= (c - 1) * (c - 1)) by (nonlinear_arith)
            requires
                0 <= d <= c - 1,
        ;
    }
    if c < d {
        assert(c * c <= (d - 1) * (d - 1)) by (nonlinear_arith)
            requires
                0 <= c <= d - 1,
        ;
    }
}

/// The grid cell of each facet panel, row-major from the top left:
/// `(column, row counted from the bottom)`.
pub fn facet_cells(panel_count: usize, ncol: usize, nrow: usize) -> (cells: Vec<(usize, usize)>)
    requires
        ncol >= 1,
        nrow * ncol >= panel_count,
    ensures
        cells@.len() == panel_count,
        forall|i: int|
            0 <= i < panel_count ==> #[trigger] cells@[i] == ((i % ncol as int) as usize, (nrow - 1 - i / ncol as int) as usize),
        forall|i: int| 0 <= i < panel_count ==> (#[trigger] cells@[i]).0 < ncol && cells@[i].1 < nrow,
        forall|i: int, j: int| 0 <= i < j < panel_count ==> #[trigger] cells@[i] != #[trigger] cells@[j],
{
    let mut cells: Vec<(usize, usize)> = Vec::new();
    let mut i: usize = 0;
    while i < panel_count
        invariant
            ncol >= 1,
            nrow * ncol >= panel_count,
            i <= panel_count,
            cells@.len() == i,
            forall|k: int| 0 <= k < i ==> #[trigger] cells@[k] == ((k % ncol as int) as usize, (nrow - 1 - k / ncol as int) as usize),
            forall|k: int| 0 <= k < i ==> (#[trigger] cells@[k]).0 < ncol && cells@[k].1 < nrow,
        decreases panel_count - i,
    {
        let col = i % ncol;
        let row = i / ncol;
        assert(row < nrow) by (nonlinear_arith)
            requires
                row == i / ncol,
                i < panel_count,
                nrow * ncol >= panel_count,
                ncol >= 1,
        ;
        cells.push((col, nrow - 1 - row));
        i = i + 1;
    }
    assert forall|a: int, b: int| 0 <= a < b < panel_count implies #[trigger] cells@[a] != #[trigger] cells@[b] by {
        if cells@[a] == cells@[b] {
            vstd::arithmetic::div_mod::lemma_fundamental_div_mod(a, ncol as int);
            vstd::arithmetic::div_mod::lemma_fundamental_div_mod(b, ncol as int);
            assert(a % ncol as int == b % ncol as int);
            assert((a / (ncol as int)) < nrow && (b / (ncol as int)) < nrow) by (nonlinear_arith)
                requires
                    0 <= a < panel_count,
                    0 <= b < panel_count,
                    nrow * ncol >= panel_count,
                    ncol >= 1,
            ;
            assert(a / ncol as int == b / ncol as int);
        }
    }
    cells
}

/// Circular graph layout.
#[derive(Debug, Clone, Copy, PartialEq, Eq, Structural)]
pub struct CircularLayout {}

/// Grid graph layout, row-major in declaration order.
#[derive(Debug, Clone, Copy, PartialEq, Eq, Structural)]
pub struct GridLayout {}

/// Layered graph layout (`assign_levels`).
#[derive(Debug, Clone, Copy, PartialEq, Eq, Structural)]
pub struct LayeredLayout {}

/// Deterministic force-directed graph layout.
#[derive(Debug, Clone, Copy, PartialEq, Eq, Structural)]
pub struct ForceLayout {
    /// Iterations.
    pub iterations: u32,
}

impl Default for ForceLayout {
    fn default() -> (f: ForceLayout)
        ensures
            f.iterations == 64,
    {
        ForceLayout { iterations: 64 }
    }
}

/// Tidy tree layout.
#[derive(Debug, Clone, Copy, PartialEq, Eq, Structural)]
pub struct TidyTreeLayout {}

/// Radial tree layout.
#[derive(Debug, Clone, Copy, PartialEq, Eq, Structural)]
pub struct RadialTreeLayout {}

/// A layout position; both coordinates are `f64` bit patterns.
#[derive(Debug, Clone, Copy, PartialEq, Eq, Structural)]
pub struct LayoutPoint {
    /// x, as `f64::to_bits`.
    pub x: u64,
    /// y, as `f64::to_bits`.
    pub y: u64,
}

/// The polyline of one edge.
#[derive(Debug)]
pub struct EdgeRoute {
    /// Source id.
    pub source: String,
    /// Target id.
    pub target: String,
    /// Points of the polyline, both ends included.
    pub points: Vec<LayoutPoint>,
}

/// Node positions and edge routes.
#[derive(Debug)]
pub struct LayoutResult {
    /// `(id, position)` in a stable order.
    pub positions: Vec<(String, LayoutPoint)>,
    /// Edge routes.
    pub routes: Vec<EdgeRoute>,
}

/// The positions of a layout as `(id, point)` pairs.
pub open spec fn position_view(p: Seq<(String, LayoutPoint)>) -> Seq<(Seq<char>, LayoutPoint)> {
    p.map_values(|e: (String, LayoutPoint)| (e.0@, e.1))
}

/// The position of the first entry for `id`.
pub open spec fn find_position(p: Seq<(Seq<char>, LayoutPoint)>, id: Seq<char>) -> Option<LayoutPoint>
    decreases p.len(),
{
    if p.len() == 0 {
        None
    } else if p[0].0 == id {
        Some(p[0].1)
    } else {
        find_position(p.drop_first(), id)
    }
}

/// The routes `straight_routes` draws: for each edge whose ends both have a
/// position, in order, the segment between the two positions.
pub open spec fn straight(edges: Seq<(Seq<char>, Seq<char>)>, p: Seq<(Seq<char>, LayoutPoint)>) -> Seq<
    (Seq<char>, Seq<char>, Seq<LayoutPoint>),
>
    decreases edges.len(),
{
    if edges.len() == 0 {
        Seq::empty()
    } else {
        let prev = straight(edges.drop_last(), p);
        let e = edges.last();
        match (find_position(p, e.0), find_position(p, e.1)) {
            (Some(a), Some(b)) => prev.push((e.0, e.1, seq![a, b])),
            _ => prev,
        }
    }
}

/// Both ends of edge `e` have a position.
pub open spec fn both_placed(e: (Seq<char>, Seq<char>), p: Seq<(Seq<char>, LayoutPoint)>) -> bool {
    find_position(p, e.0) is Some && find_position(p, e.1) is Some
}

/// How many of the first `k` edges have both ends placed.
pub open spec fn placed_count(edges: Seq<(Seq<char>, Seq<char>)>, p: Seq<(Seq<char>, LayoutPoint)>, k: int) -> nat
    decreases k,
{
    if k <= 0 {
        0
    } else {
        placed_count(edges, p, k - 1) + if both_placed(edges[k - 1], p) {
            1nat
        } else {
            0nat
        }
    }
}

proof fn lemma_placed_count_prefix(
    edges: Seq<(Seq<char>, Seq<char>)>,
    p: Seq<(Seq<char>, LayoutPoint)>,
    k: int,
)
    requires
        0 <= k < edges.len(),
    ensures
        placed_count(edges.drop_last(), p, k) == placed_count(edges, p, k),
    decreases k,
{
    if k > 0 {
        assert(edges.drop_last()[k - 1] == edges[k - 1]);
        lemma_placed_count_prefix(edges, p, k - 1);
    }
}

/// Every edge whose two ends are placed gets its own route, whatever the other
/// edges are: there is one route per such edge, and the route of the `j`-th
/// edge comes after those of the placed edges before it and joins the
/// positions of its two ends.
pub proof fn every_placed_edge_is_routed(edges: Seq<(Seq<char>, Seq<char>)>, p: Seq<(Seq<char>, LayoutPoint)>)
    ensures
        straight(edges, p).len() == placed_count(edges, p, edges.len() as int),
        forall|j: int|
            0 <= j < edges.len() && both_placed(#[trigger] edges[j], p) ==> straight(edges, p)[placed_count(
                edges,
                p,
                j,
            ) as int] == (edges[j].0, edges[j].1, seq![find_position(p, edges[j].0)->0, find_position(p, edges[j].1)->0]),
    decreases edges.len(),
{
    if edges.len() > 0 {
        let init = edges.drop_last();
        every_placed_edge_is_routed(init, p);
        let n = edges.len() - 1;
        lemma_placed_count_prefix(edges, p, n);
        assert(edges.last() == edges[n]);
        assert forall|j: int|
            0 <= j < edges.len() && both_placed(#[trigger] edges[j], p) implies straight(edges, p)[placed_count(
                edges,
                p,
                j,
            ) as int] == (edges[j].0, edges[j].1, seq![find_position(p, edges[j].0)->0, find_position(p, edges[j].1)->0]) by {
            if j < n {
                lemma_placed_count_prefix(edges, p, j);
                assert(init[j] == edges[j]);
                assert(placed_count(edges, p, j) < placed_count(edges, p, n)) by {
                    lemma_placed_count_grows(edges, p, j, n);
                }
            }
        }
    }
}

proof fn lemma_placed_count_grows(
    edges: Seq<(Seq<char>, Seq<char>)>,
    p: Seq<(Seq<char>, LayoutPoint)>,
    j: int,
    k: int,
)
    requires
        0 <= j < k <= edges.len(),
        both_placed(edges[j], p),
    ensures
        placed_count(edges, p, j) < placed_count(edges, p, k),
    decreases k - j,
{
    if k > j + 1 {
        lemma_placed_count_grows(edges, p, j, k - 1);
    }
}

/// The routes as `(source, target, points)`.
pub open spec fn route_view(r: Seq<EdgeRoute>) -> Seq<(Seq<char>, Seq<char>, Seq<LayoutPoint>)> {
    r.map_values(|e: EdgeRoute| (e.source@, e.target@, e.points@))
}

fn lookup_position(positions: &Vec<(String, LayoutPoint)>, id: &str) -> (r: Option<LayoutPoint>)
    ensures
        r == find_position(position_view(positions@), id@),
{
    let ghost pv = position_view(positions@);
    assert(pv.skip(0) =~= pv);
    let mut k: usize = 0;
    while k < positions.len()
        invariant
            pv == position_view(positions@),
            k <= positions@.len(),
            find_position(pv, id@) == find_position(pv.skip(k as int), id@),
        decreases positions@.len() - k,
    {
        assert(pv.skip(k as int)[0] == (positions@[k as int].0@, positions@[k as int].1));
        assert(pv.skip(k as int).drop_first() =~= pv.skip(k + 1));
        if str_eq(positions[k].0.as_str(), id) {
            return Some(positions[k].1);
        }
        k = k + 1;
    }
    assert(pv.skip(k as int).len() == 0);
    None
}

/// Straight two-point routes for the edges whose ends both have a position.
pub fn straight_routes(edges: Vec<(String, String)>, positions: &Vec<(String, LayoutPoint)>) -> (r: Vec<EdgeRoute>)
    ensures
        route_view(r@) == straight(edges@.map_values(|e: (String, String)| (e.0@, e.1@)), position_view(positions@)),
{
    let ghost ev = edges@.map_values(|e: (String, String)| (e.0@, e.1@));
    let ghost pv = position_view(positions@);
    let mut out: Vec<EdgeRoute> = Vec::new();
    let mut j: usize = 0;
    while j < edges.len()
        invariant
            ev == edges@.map_values(|e: (String, String)| (e.0@, e.1@)),
            pv == position_view(positions@),
            j <= edges@.len(),
            route_view(out@) == straight(ev.take(j as int), pv),
        decreases edges@.len() - j,
    {
        let source = &edges[j].0;
        let target = &edges[j].1;
        proof {
            assert(ev.take(j + 1).drop_last() =~= ev.take(j as int));
            assert(ev.take(j + 1).last() == (source@, target@));
        }
        match (lookup_position(positions, source.as_str()), lookup_position(positions, target.as_str())) {
            (Some(a), Some(b)) => {
                let ghost before = out@;
                let points = vec![a, b];
                let route = EdgeRoute { source: source.clone(), target: target.clone(), points };
                out.push(route);
                assert(route_view(out@) =~= route_view(before).push((source@, target@, seq![a, b])));
            },
            _ => {},
        }
        j = j + 1;
    }
    assert(ev.take(edges@.len() as int) =~= ev);
    out
}

impl LayoutResult {
    /// The position of node `id`.
    pub fn position_of(&self, id: &str) -> (r: Option<LayoutPoint>)
        ensures
            r == find_position(position_view(self.positions@), id@),
    {
        lookup_position(&self.positions, id)
    }
}

} // verus!
