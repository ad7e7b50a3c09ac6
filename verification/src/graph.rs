//! Graph data: nodes with unique ids and edges between them.
use vstd::prelude::*;
use crate::assoc::{Entry, append_value, assoc_view, ensure_key, has_key, keys_distinct};
use crate::types::{Diagnostic, DiagnosticCode, cat3, str_eq};

verus! {

broadcast use vstd::string::to_string_from_display_ensures_for_str;

/// A graph node.
#[derive(Debug)]
pub struct GraphNode {
    /// Stable key.
    pub id: String,
    /// Optional label.
    pub label: Option<String>,
}

impl GraphNode {
    /// A node with an id and no label.
    pub fn new(id: &str) -> (n: GraphNode)
        ensures
            n.id@ == id@,
            n.label is None,
    {
        GraphNode { id: id.to_string(), label: None }
    }

    /// A node with an id and a label.
    pub fn with_label(id: &str, label: &str) -> (n: GraphNode)
        ensures
            n.id@ == id@,
            n.label matches Some(l) && l@ == label@,
    {
        GraphNode { id: id.to_string(), label: Some(label.to_string()) }
    }
}

/// A graph edge.
#[derive(Debug)]
pub struct GraphEdge {
    /// Start node id.
    pub source: String,
    /// End node id.
    pub target: String,
}

impl GraphEdge {
    /// An edge from `source` to `target`.
    pub fn new(source: &str, target: &str) -> (e: GraphEdge)
        ensures
            e.source@ == source@,
            e.target@ == target@,
    {
        GraphEdge { source: source.to_string(), target: target.to_string() }
    }
}

/// Graph data.
#[derive(Debug)]
pub struct GraphData {
    /// Nodes.
    pub nodes: Vec<GraphNode>,
    /// Edges.
    pub edges: Vec<GraphEdge>,
    /// Whether edges are directed.
    pub directed: bool,
}

/// The ids of a node list.
pub open spec fn graph_ids(nodes: Seq<GraphNode>) -> Seq<Seq<char>> {
    nodes.map_values(|n: GraphNode| n.id@)
}

/// The endpoints of an edge list.
pub open spec fn edge_pairs(edges: Seq<GraphEdge>) -> Seq<(Seq<char>, Seq<char>)> {
    edges.map_values(|e: GraphEdge| (e.source@, e.target@))
}

/// The id at `i` is empty or repeats an earlier one.
pub open spec fn id_bad(ids: Seq<Seq<char>>, i: int) -> bool {
    ids[i].len() == 0 || exists|k: int| 0 <= k < i && ids[k] == ids[i]
}

/// `i` is the first position whose id is empty or repeated.
pub open spec fn first_bad_id(ids: Seq<Seq<char>>, i: int) -> bool {
    &&& 0 <= i < ids.len()
    &&& id_bad(ids, i)
    &&& forall|k: int| 0 <= k < i ==> !#[trigger] id_bad(ids, k)
}

/// Every id is non-empty and no two are equal.
pub open spec fn ids_ok(ids: Seq<Seq<char>>) -> bool {
    forall|i: int| 0 <= i < ids.len() ==> !#[trigger] id_bad(ids, i)
}

/// An endpoint of the edge names no node.
pub open spec fn edge_bad(ids: Seq<Seq<char>>, e: (Seq<char>, Seq<char>)) -> bool {
    !ids.contains(e.0) || !ids.contains(e.1)
}

/// `j` is the first edge with an unknown endpoint.
pub open spec fn first_bad_edge(ids: Seq<Seq<char>>, edges: Seq<(Seq<char>, Seq<char>)>, j: int) -> bool {
    &&& 0 <= j < edges.len()
    &&& edge_bad(ids, edges[j])
    &&& forall|k: int| 0 <= k < j ==> !#[trigger] edge_bad(ids, edges[k])
}

/// A valid graph: some nodes, non-empty distinct ids, edges between known nodes.
pub open spec fn graph_valid(ids: Seq<Seq<char>>, edges: Seq<(Seq<char>, Seq<char>)>) -> bool {
    &&& ids.len() > 0
    &&& ids_ok(ids)
    &&& forall|j: int| 0 <= j < edges.len() ==> !#[trigger] edge_bad(ids, edges[j])
}

/// The diagnostic for the first bad id, at `i`, of a node list.
pub open spec fn id_error(ids: Seq<Seq<char>>, i: int, d: Diagnostic, empty_msg: Seq<char>, dup_prefix: Seq<char>) -> bool {
    if ids[i].len() == 0 {
        d.matches(DiagnosticCode::ValidationFailed, empty_msg, seq![])
    } else {
        d.matches(DiagnosticCode::ValidationFailed, dup_prefix + ids[i] + "`"@, seq![("node"@, ids[i])])
    }
}

/// The diagnostic for the first bad edge.
pub open spec fn edge_error(ids: Seq<Seq<char>>, e: (Seq<char>, Seq<char>), d: Diagnostic) -> bool {
    if !ids.contains(e.0) {
        d.matches(DiagnosticCode::UnknownColumn, "边起点 `"@ + e.0 + "` 不存在"@, seq![("node"@, e.0)])
    } else {
        d.matches(DiagnosticCode::UnknownColumn, "边终点 `"@ + e.1 + "` 不存在"@, seq![("node"@, e.1)])
    }
}

/// The diagnostic `GraphData::validate` gives for an invalid graph.
pub open spec fn graph_error(ids: Seq<Seq<char>>, edges: Seq<(Seq<char>, Seq<char>)>, d: Diagnostic) -> bool {
    if ids.len() == 0 {
        d.matches(DiagnosticCode::EmptyData, "图没有节点"@, seq![])
    } else if exists|i: int| first_bad_id(ids, i) {
        exists|i: int| #[trigger] first_bad_id(ids, i) && id_error(ids, i, d, "图节点 ID 为空"@, "图节点 ID 重复：`"@)
    } else {
        exists|j: int| #[trigger] first_bad_edge(ids, edges, j) && edge_error(ids, edges[j], d)
    }
}

/// The neighbours listed under `k`: for each edge in order, its target when
/// `k` is its source, then (undirected) its source when `k` is its target.
pub open spec fn neighbours(edges: Seq<(Seq<char>, Seq<char>)>, directed: bool, k: Seq<char>) -> Seq<Seq<char>>
    decreases edges.len(),
{
    if edges.len() == 0 {
        Seq::empty()
    } else {
        let e = edges.last();
        let prev = neighbours(edges.drop_last(), directed, k);
        let with_target = if e.0 == k { prev.push(e.1) } else { prev };
        if !directed && e.1 == k { with_target.push(e.0) } else { with_target }
    }
}

/// The keys of the adjacency index: node ids, edge sources and, undirected, edge targets.
pub open spec fn adjacency_key(
    ids: Seq<Seq<char>>,
    edges: Seq<(Seq<char>, Seq<char>)>,
    directed: bool,
    k: Seq<char>,
) -> bool {
    ||| ids.contains(k)
    ||| exists|j: int| 0 <= j < edges.len() && #[trigger] edges[j].0 == k
    ||| !directed && exists|j: int| 0 <= j < edges.len() && #[trigger] edges[j].1 == k
}

/// Checks that the id at `i` is neither empty nor a repeat; returns the diagnostic otherwise.
pub(crate) fn check_id(ids_of: &Vec<String>, i: usize, empty_msg: &str, dup_prefix: &str) -> (r: Option<Diagnostic>)
    requires
        i < ids_of@.len(),
    ensures
        r is None <==> !id_bad(ids_of@.map_values(|s: String| s@), i as int),
        r matches Some(d) ==> id_error(ids_of@.map_values(|s: String| s@), i as int, d, empty_msg@, dup_prefix@),
{
    let ghost ids = ids_of@.map_values(|s: String| s@);
    assert(ids[i as int] == ids_of@[i as int]@);
    let id = ids_of[i].as_str();
    if id.is_empty() {
        return Some(Diagnostic::error(DiagnosticCode::ValidationFailed, empty_msg.to_string()));
    }
    let mut k: usize = 0;
    while k < i
        invariant
            0 <= k <= i < ids_of@.len(),
            ids == ids_of@.map_values(|s: String| s@),
            id@ == ids[i as int],
            ids[i as int].len() > 0,
            forall|q: int| 0 <= q < k ==> ids[q] != ids[i as int],
        decreases i - k,
    {
        assert(ids[k as int] == ids_of@[k as int]@);
        if str_eq(ids_of[k].as_str(), id) {
            return Some(Diagnostic::error(DiagnosticCode::ValidationFailed, cat3(dup_prefix, id, "`"))
                .with_param("node", id.to_string()));
        }
        k = k + 1;
    }
    None
}

/// The keys of a list of pairs.
pub open spec fn pair_keys(r: Seq<(String, usize)>) -> Seq<Seq<char>> {
    r.map_values(|p: (String, usize)| p.0@)
}

/// Position of the pair whose key is `key`, if any.
fn find_position(list: &Vec<(String, usize)>, key: &str) -> (r: Option<usize>)
    ensures
        match r {
            Some(a) => a < list@.len() && list@[a as int].0@ == key@,
            None => forall|b: int| 0 <= b < list@.len() ==> #[trigger] list@[b].0@ != key@,
        },
{
    let mut a: usize = 0;
    while a < list.len()
        invariant
            0 <= a <= list@.len(),
            forall|b: int| 0 <= b < a ==> #[trigger] list@[b].0@ != key@,
        decreases list@.len() - a,
    {
        if str_eq(list[a].0.as_str(), key) {
            return Some(a);
        }
        a = a + 1;
    }
    None
}

/// Whether `id` is one of `ids_of`.
pub(crate) fn contains_id(ids_of: &Vec<String>, id: &str) -> (r: bool)
    ensures
        r == ids_of@.map_values(|s: String| s@).contains(id@),
{
    let ghost ids = ids_of@.map_values(|s: String| s@);
    let mut k: usize = 0;
    while k < ids_of.len()
        invariant
            0 <= k <= ids_of@.len(),
            ids == ids_of@.map_values(|s: String| s@),
            forall|q: int| 0 <= q < k ==> ids[q] != id@,
        decreases ids_of@.len() - k,
    {
        assert(ids[k as int] == ids_of@[k as int]@);
        if str_eq(ids_of[k].as_str(), id) {
            return true;
        }
        k = k + 1;
    }
    false
}

impl GraphData {
    /// The node ids, in order.
    pub open spec fn ids(&self) -> Seq<Seq<char>> {
        graph_ids(self.nodes@)
    }

    /// The edge endpoints, in order.
    pub open spec fn pairs(&self) -> Seq<(Seq<char>, Seq<char>)> {
        edge_pairs(self.edges@)
    }

    pub(crate) fn id_list(&self) -> (v: Vec<String>)
        ensures
            v@.map_values(|s: String| s@) == self.ids(),
    {
        let mut v: Vec<String> = Vec::new();
        let mut i: usize = 0;
        while i < self.nodes.len()
            invariant
                0 <= i <= self.nodes@.len(),
                v@.map_values(|s: String| s@) == self.ids().take(i as int),
            decreases self.nodes@.len() - i,
        {
            let ghost before = v@;
            v.push(self.nodes[i].id.clone());
            assert(self.ids()[i as int] == self.nodes@[i as int].id@);
            assert(v@.map_values(|s: String| s@) =~= before.map_values(|s: String| s@).push(self.nodes@[i as int].id@));
            assert(self.ids().take(i + 1) =~= self.ids().take(i as int).push(self.ids()[i as int]));
            i = i + 1;
        }
        assert(self.ids().take(self.nodes@.len() as int) =~= self.ids());
        v
    }

    /// An undirected graph, checked by `validate`.
    pub fn undirected(nodes: Vec<GraphNode>, edges: Vec<GraphEdge>) -> (r: Result<GraphData, Diagnostic>)
        ensures
            r is Ok <==> graph_valid(graph_ids(nodes@), edge_pairs(edges@)),
            match r {
                Ok(g) => g.nodes@ == nodes@ && g.edges@ == edges@ && !g.directed,
                Err(d) => graph_error(graph_ids(nodes@), edge_pairs(edges@), d),
            },
    {
        let graph = GraphData { nodes, edges, directed: false };
        match graph.validate() {
            Ok(()) => Ok(graph),
            Err(d) => Err(d),
        }
    }

    /// A directed graph, checked by `validate`.
    pub fn directed(nodes: Vec<GraphNode>, edges: Vec<GraphEdge>) -> (r: Result<GraphData, Diagnostic>)
        ensures
            r is Ok <==> graph_valid(graph_ids(nodes@), edge_pairs(edges@)),
            match r {
                Ok(g) => g.nodes@ == nodes@ && g.edges@ == edges@ && g.directed,
                Err(d) => graph_error(graph_ids(nodes@), edge_pairs(edges@), d),
            },
    {
        let graph = GraphData { nodes, edges, directed: true };
        match graph.validate() {
            Ok(()) => Ok(graph),
            Err(d) => Err(d),
        }
    }

    /// The index of each id: for every distinct id, the position of its last node.
    pub fn index_of(&self) -> (r: Vec<(String, usize)>)
        ensures
            forall|a: int, b: int| 0 <= a < r@.len() && 0 <= b < r@.len() && a != b ==> #[trigger] r@[a].0@
                != #[trigger] r@[b].0@,
            forall|a: int| 0 <= a < r@.len() ==> {
                let (key, pos) = #[trigger] r@[a];
                &&& pos < self.ids().len()
                &&& self.ids()[pos as int] == key@
                &&& forall|k: int| pos < k < self.ids().len() ==> #[trigger] self.ids()[k] != key@
            },
            forall|i: int| 0 <= i < self.ids().len() ==> #[trigger] pair_keys(r@).contains(self.ids()[i]),
    {
        let ghost ids = self.ids();
        let mut r: Vec<(String, usize)> = Vec::new();
        let mut i: usize = 0;
        while i < self.nodes.len()
            invariant
                0 <= i <= self.nodes@.len(),
                ids == self.ids(),
                ids.len() == self.nodes@.len(),
                forall|a: int, b: int| 0 <= a < r@.len() && 0 <= b < r@.len() && a != b ==> #[trigger] r@[a].0@
                    != #[trigger] r@[b].0@,
                forall|a: int| 0 <= a < r@.len() ==> {
                    let (key, pos) = #[trigger] r@[a];
                    &&& pos < i
                    &&& ids[pos as int] == key@
                    &&& forall|k: int| pos < k < i ==> #[trigger] ids[k] != key@
                },
                forall|q: int| 0 <= q < i ==> #[trigger] pair_keys(r@).contains(ids[q]),
            decreases self.nodes@.len() - i,
        {
            let id = self.nodes[i].id.as_str();
            assert(ids[i as int] == id@);
            let ghost before = r@;
            match find_position(&r, id) {
                Some(a) => {
                    let (key, _) = r.remove(a);
                    r.insert(a, (key, i));
                    assert(r@ =~= before.update(a as int, (before[a as int].0, i)));
                    proof {
                        assert forall|q: int| 0 <= q < i + 1 implies #[trigger] pair_keys(r@).contains(ids[q]) by {
                            if q == i {
                                assert(pair_keys(r@)[a as int] == ids[q]);
                            } else {
                                assert(pair_keys(before).contains(ids[q]));
                                let b = choose|b: int| 0 <= b < before.len() && #[trigger] pair_keys(before)[b] == ids[q];
                                assert(pair_keys(r@)[b] == ids[q]);
                            }
                        }
                        assert forall|b: int| 0 <= b < r@.len() && b != a implies #[trigger] r@[b].0@ != id@ by {
                            assert(before[b].0@ != before[a as int].0@);
                        }
                    }
                },
                None => {
                    r.push((id.to_string(), i));
                    proof {
                        assert forall|q: int| 0 <= q < i + 1 implies #[trigger] pair_keys(r@).contains(ids[q]) by {
                            if q == i {
                                assert(pair_keys(r@)[before.len() as int] == ids[q]);
                            } else {
                                assert(pair_keys(before).contains(ids[q]));
                                let b = choose|b: int| 0 <= b < before.len() && #[trigger] pair_keys(before)[b] == ids[q];
                                assert(pair_keys(r@)[b] == ids[q]);
                            }
                        }
                    }
                },
            }
            i = i + 1;
        }
        assert forall|a: int| 0 <= a < r@.len() implies {
            let (key, pos) = #[trigger] r@[a];
            &&& pos < self.ids().len()
            &&& self.ids()[pos as int] == key@
            &&& forall|k: int| pos < k < self.ids().len() ==> #[trigger] self.ids()[k] != key@
        } by {
            let (key, pos) = r@[a];
            assert forall|k: int| pos < k < self.ids().len() implies #[trigger] self.ids()[k] != key@ by {
                assert(ids[k] != key@);
            }
        }
        r
    }

    /// The adjacency index: outgoing neighbours for a directed graph, both
    /// directions for an undirected one; every node id is a key.
    pub fn adjacency(&self) -> (r: Vec<Entry>)
        ensures
            keys_distinct(assoc_view(r@)),
            forall|k: Seq<char>| has_key(assoc_view(r@), k) <==> adjacency_key(self.ids(), self.pairs(), self.directed, k),
            forall|a: int| 0 <= a < r@.len() ==> #[trigger] assoc_view(r@)[a].1 == neighbours(
                self.pairs(),
                self.directed,
                assoc_view(r@)[a].0,
            ),
    {
        let ghost ids = self.ids();
        let ghost pairs = self.pairs();
        let mut r: Vec<Entry> = Vec::new();
        let mut i: usize = 0;
        while i < self.nodes.len()
            invariant
                0 <= i <= self.nodes@.len(),
                ids == self.ids(),
                ids.len() == self.nodes@.len(),
                keys_distinct(assoc_view(r@)),
                forall|k: Seq<char>| has_key(assoc_view(r@), k) <==> ids.take(i as int).contains(k),
                forall|a: int| 0 <= a < r@.len() ==> #[trigger] assoc_view(r@)[a].1 == Seq::<Seq<char>>::empty(),
            decreases self.nodes@.len() - i,
        {
            let ghost before = assoc_view(r@);
            assert(ids[i as int] == self.nodes@[i as int].id@);
            let _ = ensure_key(&mut r, self.nodes[i].id.as_str());
            proof {
                if has_key(before, ids[i as int]) {
                    assert(assoc_view(r@) == before);
                } else {
                    assert(assoc_view(r@) == before.push((ids[i as int], Seq::<Seq<char>>::empty())));
                }
                assert(ids.take(i + 1) =~= ids.take(i as int).push(ids[i as int]));
                assert forall|k: Seq<char>| has_key(assoc_view(r@), k) <==> ids.take(i + 1).contains(k) by {
                    if has_key(assoc_view(r@), k) {
                        let a = choose|a: int| 0 <= a < assoc_view(r@).len() && #[trigger] assoc_view(r@)[a].0 == k;
                        if a < before.len() {
                            assert(before[a].0 == k);
                            assert(has_key(before, k));
                            assert(ids.take(i as int).contains(k));
                            let w = choose|w: int| 0 <= w < i && #[trigger] ids.take(i as int)[w] == k;
                            assert(ids.take(i + 1)[w] == k);
                        } else {
                            assert(ids.take(i + 1)[i as int] == k);
                        }
                    }
                    if ids.take(i + 1).contains(k) {
                        let w = choose|w: int| 0 <= w < i + 1 && #[trigger] ids.take(i + 1)[w] == k;
                        if w < i {
                            assert(ids.take(i as int)[w] == k);
                            assert(ids.take(i as int).contains(k));
                            assert(has_key(before, k));
                            let a = choose|a: int| 0 <= a < before.len() && #[trigger] before[a].0 == k;
                            assert(assoc_view(r@)[a].0 == k);
                        } else {
                            assert(k == ids[i as int]);
                        }
                    }
                }
            }
            i = i + 1;
        }
        assert(ids.take(self.nodes@.len() as int) =~= ids);
        let mut j: usize = 0;
        while j < self.edges.len()
            invariant
                0 <= j <= self.edges@.len(),
                ids == self.ids(),
                pairs == self.pairs(),
                pairs.len() == self.edges@.len(),
                keys_distinct(assoc_view(r@)),
                forall|k: Seq<char>| has_key(assoc_view(r@), k) <==> adjacency_key(ids, pairs.take(j as int), self.directed, k),
                forall|a: int| 0 <= a < r@.len() ==> #[trigger] assoc_view(r@)[a].1 == neighbours(
                    pairs.take(j as int),
                    self.directed,
                    assoc_view(r@)[a].0,
                ),
            decreases self.edges@.len() - j,
        {
            let edge = &self.edges[j];
            let ghost e = pairs[j as int];
            assert(e == (edge.source@, edge.target@));
            let ghost prefix = pairs.take(j as int);
            let ghost next = pairs.take(j + 1);
            assert(next =~= prefix.push(e));
            assert(next.drop_last() =~= prefix);
            let ghost v0 = assoc_view(r@);
            let ghost d = self.directed;
            let ghost f0 = |k: Seq<char>| neighbours(prefix, d, k);
            let ghost k0 = |k: Seq<char>| adjacency_key(ids, prefix, d, k);
            proof {
                assert forall|k: Seq<char>| !#[trigger] k0(k) implies f0(k) == Seq::<Seq<char>>::empty() by {
                    lemma_neighbours_empty(ids, prefix, d, k);
                }
            }
            let s = ensure_key(&mut r, edge.source.as_str());
            let ghost v1 = assoc_view(r@);
            append_value(&mut r, s, edge.target.clone());
            let ghost v2 = assoc_view(r@);
            proof { lemma_append_event(v0, v1, v2, f0, k0, e.0, e.1, s as int); }
            let ghost f1 = |k: Seq<char>| if k == e.0 { f0(k).push(e.1) } else { f0(k) };
            let ghost k1 = |k: Seq<char>| k0(k) || k == e.0;
            if !self.directed {
                proof {
                    assert forall|k: Seq<char>| !#[trigger] k1(k) implies f1(k) == Seq::<Seq<char>>::empty() by {}
                }
                let t = ensure_key(&mut r, edge.target.as_str());
                let ghost v3 = assoc_view(r@);
                append_value(&mut r, t, edge.source.clone());
                let ghost v4 = assoc_view(r@);
                proof {
                    lemma_append_event(v2, v3, v4, f1, k1, e.1, e.0, t as int);
                    lemma_adjacency_key_push(ids, prefix, d, e);
                    assert forall|a: int| 0 <= a < v4.len() implies #[trigger] v4[a].1 == neighbours(next, d, v4[a].0) by {}
                }
            } else {
                proof {
                    lemma_adjacency_key_push(ids, prefix, d, e);
                    assert forall|a: int| 0 <= a < v2.len() implies #[trigger] v2[a].1 == neighbours(next, d, v2[a].0) by {}
                }
            }
            j = j + 1;
        }
        assert(pairs.take(self.edges@.len() as int) =~= pairs);
        r
    }

    /// Checks: some nodes, non-empty unique ids, edge endpoints that exist.
    pub fn validate(&self) -> (r: Result<(), Diagnostic>)
        ensures
            r is Ok <==> graph_valid(self.ids(), self.pairs()),
            r matches Err(d) ==> graph_error(self.ids(), self.pairs(), d),
    {
        if self.nodes.len() == 0 {
            return Err(Diagnostic::error(DiagnosticCode::EmptyData, "图没有节点".to_string()));
        }
        let ids_of = self.id_list();
        let ghost ids = self.ids();
        let mut i: usize = 0;
        while i < ids_of.len()
            invariant
                0 <= i <= ids_of@.len(),
                ids == self.ids(),
                ids_of@.map_values(|s: String| s@) == ids,
                ids.len() > 0,
                forall|k: int| 0 <= k < i ==> !#[trigger] id_bad(ids, k),
            decreases ids_of@.len() - i,
        {
            match check_id(&ids_of, i, "图节点 ID 为空", "图节点 ID 重复：`") {
                Some(d) => {
                    assert(first_bad_id(ids, i as int));
                    return Err(d);
                },
                None => {},
            }
            i = i + 1;
        }
        assert(ids_ok(ids));
        let ghost pairs = self.pairs();
        let mut j: usize = 0;
        while j < self.edges.len()
            invariant
                0 <= j <= self.edges@.len(),
                ids == self.ids(),
                pairs == self.pairs(),
                ids_of@.map_values(|s: String| s@) == ids,
                ids.len() > 0,
                ids_ok(ids),
                forall|k: int| 0 <= k < j ==> !#[trigger] edge_bad(ids, pairs[k]),
            decreases self.edges@.len() - j,
        {
            let edge = &self.edges[j];
            assert(pairs[j as int] == (edge.source@, edge.target@));
            if !contains_id(&ids_of, edge.source.as_str()) {
                assert(first_bad_edge(ids, pairs, j as int));
                proof { if exists|i: int| first_bad_id(ids, i) { let i = choose|i: int| first_bad_id(ids, i); assert(!id_bad(ids, i)); } }
                return Err(Diagnostic::error(
                    DiagnosticCode::UnknownColumn,
                    cat3("边起点 `", edge.source.as_str(), "` 不存在"),
                ).with_param("node", edge.source.clone()));
            }
            if !contains_id(&ids_of, edge.target.as_str()) {
                assert(first_bad_edge(ids, pairs, j as int));
                proof { if exists|i: int| first_bad_id(ids, i) { let i = choose|i: int| first_bad_id(ids, i); assert(!id_bad(ids, i)); } }
                return Err(Diagnostic::error(
                    DiagnosticCode::UnknownColumn,
                    cat3("边终点 `", edge.target.as_str(), "` 不存在"),
                ).with_param("node", edge.target.clone()));
            }
            j = j + 1;
        }
        Ok(())
    }
}

/// Neighbours are only listed under keys that some edge brings in.
pub proof fn lemma_neighbours_empty(ids: Seq<Seq<char>>, edges: Seq<(Seq<char>, Seq<char>)>, directed: bool, k: Seq<char>)
    requires
        !adjacency_key(ids, edges, directed, k),
    ensures
        neighbours(edges, directed, k) == Seq::<Seq<char>>::empty(),
    decreases edges.len(),
{
    if edges.len() > 0 {
        let prev = edges.drop_last();
        assert(edges.last() == edges[edges.len() - 1]);
        assert(!adjacency_key(ids, prev, directed, k)) by {
            if exists|j: int| 0 <= j < prev.len() && #[trigger] prev[j].0 == k {
                let j = choose|j: int| 0 <= j < prev.len() && #[trigger] prev[j].0 == k;
                assert(edges[j].0 == k);
            }
            if !directed && exists|j: int| 0 <= j < prev.len() && #[trigger] prev[j].1 == k {
                let j = choose|j: int| 0 <= j < prev.len() && #[trigger] prev[j].1 == k;
                assert(edges[j].1 == k);
            }
        }
        lemma_neighbours_empty(ids, prev, directed, k);
    }
}

/// The keys after one more edge: the old keys and the edge's endpoints.
pub proof fn lemma_adjacency_key_push(
    ids: Seq<Seq<char>>,
    edges: Seq<(Seq<char>, Seq<char>)>,
    directed: bool,
    e: (Seq<char>, Seq<char>),
)
    ensures
        forall|k: Seq<char>| adjacency_key(ids, edges.push(e), directed, k) <==> (adjacency_key(ids, edges, directed, k)
            || k == e.0 || (!directed && k == e.1)),
{
    let next = edges.push(e);
    assert forall|k: Seq<char>| adjacency_key(ids, next, directed, k) <==> (adjacency_key(ids, edges, directed, k)
        || k == e.0 || (!directed && k == e.1)) by {
        if exists|j: int| 0 <= j < next.len() && #[trigger] next[j].0 == k {
            let j = choose|j: int| 0 <= j < next.len() && #[trigger] next[j].0 == k;
            if j < edges.len() { assert(edges[j].0 == k); }
        }
        if exists|j: int| 0 <= j < next.len() && #[trigger] next[j].1 == k {
            let j = choose|j: int| 0 <= j < next.len() && #[trigger] next[j].1 == k;
            if j < edges.len() { assert(edges[j].1 == k); }
        }
        if exists|j: int| 0 <= j < edges.len() && #[trigger] edges[j].0 == k {
            let j = choose|j: int| 0 <= j < edges.len() && #[trigger] edges[j].0 == k;
            assert(next[j].0 == k);
        }
        if exists|j: int| 0 <= j < edges.len() && #[trigger] edges[j].1 == k {
            let j = choose|j: int| 0 <= j < edges.len() && #[trigger] edges[j].1 == k;
            assert(next[j].1 == k);
        }
        if k == e.0 { assert(next[edges.len() as int].0 == k); }
        if k == e.1 { assert(next[edges.len() as int].1 == k); }
    }
}

/// One `ensure_key` then `append_value` step on an index whose entries follow `f0`.
pub proof fn lemma_append_event(
    v0: Seq<(Seq<char>, Seq<Seq<char>>)>,
    v1: Seq<(Seq<char>, Seq<Seq<char>>)>,
    v2: Seq<(Seq<char>, Seq<Seq<char>>)>,
    f0: spec_fn(Seq<char>) -> Seq<Seq<char>>,
    k0: spec_fn(Seq<char>) -> bool,
    key: Seq<char>,
    val: Seq<char>,
    s: int,
)
    requires
        keys_distinct(v0),
        forall|k: Seq<char>| #[trigger] has_key(v0, k) <==> k0(k),
        forall|k: Seq<char>| !#[trigger] k0(k) ==> f0(k) == Seq::<Seq<char>>::empty(),
        forall|a: int| 0 <= a < v0.len() ==> #[trigger] v0[a].1 == f0(v0[a].0),
        0 <= s < v1.len(),
        v1[s].0 == key,
        has_key(v0, key) ==> v1 == v0,
        !has_key(v0, key) ==> v1 == v0.push((key, Seq::<Seq<char>>::empty())),
        v2 == v1.update(s, (v1[s].0, v1[s].1.push(val))),
    ensures
        keys_distinct(v2),
        forall|k: Seq<char>| has_key(v2, k) <==> (k0(k) || k == key),
        forall|a: int| 0 <= a < v2.len() ==> #[trigger] v2[a].1 == (if v2[a].0 == key {
            f0(v2[a].0).push(val)
        } else {
            f0(v2[a].0)
        }),
{
    assert(keys_distinct(v1)) by {
        if !has_key(v0, key) {
            assert forall|a: int, b: int| 0 <= a < v1.len() && 0 <= b < v1.len() && a != b implies #[trigger] v1[a].0 != #[trigger] v1[b].0 by {
                if a == v0.len() { assert(v0[b].0 != key); }
                if b == v0.len() { assert(v0[a].0 != key); }
            }
        }
    }
    assert forall|a: int, b: int| 0 <= a < v2.len() && 0 <= b < v2.len() && a != b implies #[trigger] v2[a].0 != #[trigger] v2[b].0 by {
        assert(v2[a].0 == v1[a].0);
        assert(v2[b].0 == v1[b].0);
    }
    assert(v2.len() == v1.len());
    assert(v1.len() >= v0.len());
    assert forall|k: Seq<char>| has_key(v2, k) <==> (k0(k) || k == key) by {
        if has_key(v2, k) {
            let a = choose|a: int| 0 <= a < v2.len() && #[trigger] v2[a].0 == k;
            assert(v1[a].0 == k);
            if a < v0.len() { assert(v0[a].0 == k); assert(has_key(v0, k)); }
        }
        if k0(k) {
            assert(has_key(v0, k));
            let a = choose|a: int| 0 <= a < v0.len() && #[trigger] v0[a].0 == k;
            assert(v1[a].0 == k);
            assert(v2[a].0 == k);
        }
        if k == key { assert(v2[s].0 == k); }
    }
    assert forall|a: int| 0 <= a < v2.len() implies #[trigger] v2[a].1 == (if v2[a].0 == key {
        f0(v2[a].0).push(val)
    } else {
        f0(v2[a].0)
    }) by {
        if a == s {
            if a < v0.len() {
                assert(v1[a] == v0[a]);
            } else {
                assert(!has_key(v0, key));
                assert(!k0(key));
            }
        } else {
            assert(v2[a] == v1[a]);
            assert(v1[a].0 != v1[s].0);
            if a < v0.len() {
                assert(v1[a] == v0[a]);
            }
        }
    }
}

} // verus!
