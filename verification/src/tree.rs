//! Tree data: one root, parent pointers, no cycles.
use vstd::prelude::*;
use crate::assoc::{Entry, append_value, assoc_view, ensure_key, has_key, keys_distinct};
use crate::graph::{
    adjacency_key, check_id, contains_id, id_bad, id_error, lemma_adjacency_key_push, lemma_append_event,
    lemma_neighbours_empty, neighbours,
};
use crate::types::{Diagnostic, DiagnosticCode, cat3, decimal, decimal_string, str_eq};

verus! {

broadcast use vstd::string::to_string_from_display_ensures_for_str;

/// A tree node.
#[derive(Debug)]
pub struct TreeNode {
    /// Stable key.
    pub id: String,
    /// Parent id; `None` for the root.
    pub parent: Option<String>,
    /// Optional label.
    pub label: Option<String>,
}

impl TreeNode {
    /// A node without parent.
    pub fn root(id: &str) -> (n: TreeNode)
        ensures
            n.id@ == id@,
            n.parent is None,
            n.label is None,
    {
        TreeNode { id: id.to_string(), parent: None, label: None }
    }

    /// A node under `parent`.
    pub fn child(id: &str, parent: &str) -> (n: TreeNode)
        ensures
            n.id@ == id@,
            n.parent matches Some(p) && p@ == parent@,
            n.label is None,
    {
        TreeNode { id: id.to_string(), parent: Some(parent.to_string()), label: None }
    }
}

/// A tree edge (parent to child).
#[derive(Debug)]
pub struct TreeEdge {
    /// Parent id.
    pub parent: String,
    /// Child id.
    pub child: String,
}

/// Tree data (single root).
#[derive(Debug)]
pub struct TreeData {
    /// Root id.
    pub root: String,
    /// Nodes.
    pub nodes: Vec<TreeNode>,
}

/// The ids of a node list.
pub open spec fn tree_ids(nodes: Seq<TreeNode>) -> Seq<Seq<char>> {
    nodes.map_values(|n: TreeNode| n.id@)
}

/// The parent id of each node.
pub open spec fn tree_parents(nodes: Seq<TreeNode>) -> Seq<Option<Seq<char>>> {
    nodes.map_values(|n: TreeNode| match n.parent {
        Some(p) => Some(p@),
        None => None,
    })
}

/// Number of nodes without a parent.
pub open spec fn root_count(parents: Seq<Option<Seq<char>>>) -> nat
    decreases parents.len(),
{
    if parents.len() == 0 {
        0
    } else {
        root_count(parents.drop_last()) + if parents.last() is None { 1nat } else { 0nat }
    }
}

/// Position `i` breaks the first pass: a bad id, or the declared root with a parent.
pub open spec fn first_pass_bad(ids: Seq<Seq<char>>, parents: Seq<Option<Seq<char>>>, root: Seq<char>, i: int) -> bool {
    id_bad(ids, i) || (ids[i] == root && parents[i] is Some)
}

/// `i` is the first node that breaks the first pass.
pub open spec fn first_pass_first(ids: Seq<Seq<char>>, parents: Seq<Option<Seq<char>>>, root: Seq<char>, i: int) -> bool {
    &&& 0 <= i < ids.len()
    &&& first_pass_bad(ids, parents, root, i)
    &&& forall|k: int| 0 <= k < i ==> !#[trigger] first_pass_bad(ids, parents, root, k)
}

/// Node `i` names a parent that is not a node.
pub open spec fn parent_missing(ids: Seq<Seq<char>>, parents: Seq<Option<Seq<char>>>, i: int) -> bool {
    parents[i] matches Some(p) && !ids.contains(p)
}

/// `i` is the first node whose parent is not a node.
pub open spec fn first_parent_missing(ids: Seq<Seq<char>>, parents: Seq<Option<Seq<char>>>, i: int) -> bool {
    &&& 0 <= i < ids.len()
    &&& parent_missing(ids, parents, i)
    &&& forall|k: int| 0 <= k < i ==> !#[trigger] parent_missing(ids, parents, k)
}

/// The position of the node with id `p` (the first one, if ids repeat).
pub open spec fn index_of_id(ids: Seq<Seq<char>>, p: Seq<char>) -> int {
    choose|j: int| 0 <= j < ids.len() && ids[j] == p && forall|k: int| 0 <= k < j ==> #[trigger] ids[k] != p
}

/// Following parents from `i`, a parentless node is met within `fuel` steps.
pub open spec fn reaches_top(ids: Seq<Seq<char>>, parents: Seq<Option<Seq<char>>>, i: int, fuel: nat) -> bool
    decreases fuel,
{
    match parents[i] {
        None => true,
        Some(p) => fuel > 0 && reaches_top(ids, parents, index_of_id(ids, p), (fuel - 1) as nat),
    }
}

/// `i` is the first node whose parent chain does not end.
pub open spec fn first_cycle(ids: Seq<Seq<char>>, parents: Seq<Option<Seq<char>>>, i: int) -> bool {
    &&& 0 <= i < ids.len()
    &&& !reaches_top(ids, parents, i, ids.len())
    &&& forall|k: int| 0 <= k < i ==> #[trigger] reaches_top(ids, parents, k, ids.len())
}

/// A valid tree: some nodes, unique non-empty ids, the declared root present and
/// parentless, exactly one parentless node, parents that exist, no cycle.
pub open spec fn tree_valid(root: Seq<char>, ids: Seq<Seq<char>>, parents: Seq<Option<Seq<char>>>) -> bool {
    &&& ids.len() > 0
    &&& forall|i: int| 0 <= i < ids.len() ==> !#[trigger] first_pass_bad(ids, parents, root, i)
    &&& ids.contains(root)
    &&& root_count(parents) == 1
    &&& forall|i: int| 0 <= i < ids.len() ==> !#[trigger] parent_missing(ids, parents, i)
    &&& forall|i: int| 0 <= i < ids.len() ==> #[trigger] reaches_top(ids, parents, i, ids.len())
}

/// The diagnostic `TreeData::validate` gives for an invalid tree.
pub open spec fn tree_error(root: Seq<char>, ids: Seq<Seq<char>>, parents: Seq<Option<Seq<char>>>, d: Diagnostic) -> bool {
    if ids.len() == 0 {
        d.matches(DiagnosticCode::EmptyData, "树没有节点"@, seq![])
    } else if exists|i: int| first_pass_first(ids, parents, root, i) {
        exists|i: int| #[trigger]
            first_pass_first(ids, parents, root, i) && if id_bad(ids, i) {
                id_error(ids, i, d, "树节点 ID 为空"@, "树节点 ID 重复：`"@)
            } else {
                d.matches(DiagnosticCode::ValidationFailed, "声明的根不能有 parent"@, seq![("root"@, root)])
            }
    } else if !ids.contains(root) {
        d.matches(DiagnosticCode::ValidationFailed, "根 `"@ + root + "` 不在节点列表中"@, seq![("root"@, root)])
    } else if root_count(parents) != 1 {
        d.matches(
            DiagnosticCode::ValidationFailed,
            "树必须恰好一个根，当前 "@ + decimal(root_count(parents)) + " 个（森林请用显式 ForestData，禁止静默选根）"@,
            seq![],
        )
    } else if exists|i: int| first_parent_missing(ids, parents, i) {
        exists|i: int| #[trigger]
            first_parent_missing(ids, parents, i) && d.matches(
                DiagnosticCode::UnknownColumn,
                "父节点 `"@ + parents[i]->Some_0 + "` 不存在"@,
                seq![("node"@, parents[i]->Some_0)],
            )
    } else {
        exists|i: int| #[trigger]
            first_cycle(ids, parents, i) && d.matches(DiagnosticCode::ValidationFailed, "树存在环"@, seq![("node"@, ids[i])])
    }
}

/// The edges derived from parent pointers, in node order.
pub open spec fn tree_edges(ids: Seq<Seq<char>>, parents: Seq<Option<Seq<char>>>) -> Seq<(Seq<char>, Seq<char>)>
    decreases ids.len(),
{
    if ids.len() == 0 || parents.len() != ids.len() {
        Seq::empty()
    } else {
        let prev = tree_edges(ids.drop_last(), parents.drop_last());
        match parents.last() {
            Some(p) => prev.push((p, ids.last())),
            None => prev,
        }
    }
}

/// Position of the first id equal to `p`, if any.
pub(crate) fn find_id(ids_of: &Vec<String>, p: &str) -> (r: Option<usize>)
    ensures
        match r {
            Some(j) => j < ids_of@.len() && ids_of@[j as int]@ == p@ && forall|k: int|
                0 <= k < j ==> #[trigger] ids_of@[k]@ != p@,
            None => !ids_of@.map_values(|s: String| s@).contains(p@),
        },
{
    let mut j: usize = 0;
    while j < ids_of.len()
        invariant
            0 <= j <= ids_of@.len(),
            forall|k: int| 0 <= k < j ==> #[trigger] ids_of@[k]@ != p@,
        decreases ids_of@.len() - j,
    {
        if str_eq(ids_of[j].as_str(), p) {
            return Some(j);
        }
        j = j + 1;
    }
    proof {
        let view = ids_of@.map_values(|s: String| s@);
        if view.contains(p@) {
            let k = choose|k: int| 0 <= k < view.len() && #[trigger] view[k] == p@;
            assert(ids_of@[k]@ != p@);
        }
    }
    None
}

/// The first position holding `p` is the one `index_of_id` names.
pub proof fn lemma_index_of_id(ids: Seq<Seq<char>>, p: Seq<char>, j: int)
    requires
        0 <= j < ids.len(),
        ids[j] == p,
        forall|k: int| 0 <= k < j ==> #[trigger] ids[k] != p,
    ensures
        index_of_id(ids, p) == j,
{
    let c = index_of_id(ids, p);
    assert(0 <= c < ids.len() && ids[c] == p && forall|k: int| 0 <= k < c ==> #[trigger] ids[k] != p);
    if c < j {
        assert(ids[c] != p);
    }
    if j < c {
        assert(ids[j] != p);
    }
}

impl TreeData {
    /// The node ids, in order.
    pub open spec fn ids(&self) -> Seq<Seq<char>> {
        tree_ids(self.nodes@)
    }

    /// The parent ids, in node order.
    pub open spec fn parents(&self) -> Seq<Option<Seq<char>>> {
        tree_parents(self.nodes@)
    }

    pub(crate) fn node_ids(&self) -> (v: Vec<String>)
        ensures
            v@.map_values(|s: String| s@) == self.ids(),
    {
        let mut v: Vec<String> = Vec::new();
        let mut i: usize = 0;
        while i < self.nodes.len()
            invariant
                0 <= i <= self.nodes@.len(),
                v@.map_values(|s: String| s@) == self.ids().take(i as int),
            decreases self.nodes@.len() - i,
        {
            let ghost before = v@;
            v.push(self.nodes[i].id.clone());
            assert(self.ids()[i as int] == self.nodes@[i as int].id@);
            assert(v@.map_values(|s: String| s@) =~= before.map_values(|s: String| s@).push(self.nodes@[i as int].id@));
            assert(self.ids().take(i + 1) =~= self.ids().take(i as int).push(self.ids()[i as int]));
            i = i + 1;
        }
        assert(self.ids().take(self.nodes@.len() as int) =~= self.ids());
        v
    }

    /// Builds a tree and checks it with `validate`.
    pub fn new(root: &str, nodes: Vec<TreeNode>) -> (r: Result<TreeData, Diagnostic>)
        ensures
            r is Ok <==> tree_valid(root@, tree_ids(nodes@), tree_parents(nodes@)),
            match r {
                Ok(t) => t.root@ == root@ && t.nodes@ == nodes@,
                Err(d) => tree_error(root@, tree_ids(nodes@), tree_parents(nodes@), d),
            },
    {
        let tree = TreeData { root: root.to_string(), nodes };
        match tree.validate() {
            Ok(()) => Ok(tree),
            Err(d) => Err(d),
        }
    }

    /// The parent-to-child edges, in node order.
    pub fn edges(&self) -> (r: Vec<TreeEdge>)
        ensures
            r@.map_values(|e: TreeEdge| (e.parent@, e.child@)) == tree_edges(self.ids(), self.parents()),
    {
        let mut r: Vec<TreeEdge> = Vec::new();
        let mut i: usize = 0;
        while i < self.nodes.len()
            invariant
                0 <= i <= self.nodes@.len(),
                r@.map_values(|e: TreeEdge| (e.parent@, e.child@)) == tree_edges(
                    self.ids().take(i as int),
                    self.parents().take(i as int),
                ),
            decreases self.nodes@.len() - i,
        {
            let ghost before = r@;
            let ghost ids_next = self.ids().take(i + 1);
            let ghost parents_next = self.parents().take(i + 1);
            assert(ids_next.drop_last() =~= self.ids().take(i as int));
            assert(parents_next.drop_last() =~= self.parents().take(i as int));
            assert(ids_next.last() == self.nodes@[i as int].id@);
            let node = &self.nodes[i];
            match &node.parent {
                Some(p) => {
                    r.push(TreeEdge { parent: p.clone(), child: node.id.clone() });
                    assert(parents_next.last() == Some(p@));
                    assert(r@.map_values(|e: TreeEdge| (e.parent@, e.child@)) =~= before.map_values(
                        |e: TreeEdge| (e.parent@, e.child@),
                    ).push((p@, node.id@)));
                },
                None => {
                    assert(parents_next.last() is None);
                },
            }
            i = i + 1;
        }
        assert(self.ids().take(self.nodes@.len() as int) =~= self.ids());
        assert(self.parents().take(self.nodes@.len() as int) =~= self.parents());
        r
    }

    /// The children index: every node id, and every named parent, is a key;
    /// under each key stand its children in node order.
    pub fn children_map(&self) -> (r: Vec<Entry>)
        ensures
            keys_distinct(assoc_view(r@)),
            forall|k: Seq<char>|
                has_key(assoc_view(r@), k) <==> adjacency_key(
                    self.ids(),
                    tree_edges(self.ids(), self.parents()),
                    true,
                    k,
                ),
            forall|a: int| 0 <= a < r@.len() ==> #[trigger] assoc_view(r@)[a].1 == neighbours(
                tree_edges(self.ids(), self.parents()),
                true,
                assoc_view(r@)[a].0,
            ),
    {
        let ghost ids = self.ids();
        let edges = self.edges();
        let ghost pairs = tree_edges(self.ids(), self.parents());
        assert(edges@.map_values(|e: TreeEdge| (e.parent@, e.child@)) == pairs);
        let mut r: Vec<Entry> = Vec::new();
        let mut i: usize = 0;
        while i < self.nodes.len()
            invariant
                0 <= i <= self.nodes@.len(),
                ids == self.ids(),
                ids.len() == self.nodes@.len(),
                keys_distinct(assoc_view(r@)),
                forall|k: Seq<char>| has_key(assoc_view(r@), k) <==> ids.take(i as int).contains(k),
                forall|a: int| 0 <= a < r@.len() ==> #[trigger] assoc_view(r@)[a].1 == Seq::<Seq<char>>::empty(),
            decreases self.nodes@.len() - i,
        {
            let ghost before = assoc_view(r@);
            assert(ids[i as int] == self.nodes@[i as int].id@);
            let _ = ensure_key(&mut r, self.nodes[i].id.as_str());
            proof {
                assert(ids.take(i + 1) =~= ids.take(i as int).push(ids[i as int]));
                assert forall|k: Seq<char>| has_key(assoc_view(r@), k) <==> ids.take(i + 1).contains(k) by {
                    if has_key(assoc_view(r@), k) {
                        let a = choose|a: int| 0 <= a < assoc_view(r@).len() && #[trigger] assoc_view(r@)[a].0 == k;
                        if a < before.len() {
                            assert(before[a].0 == k);
                            assert(has_key(before, k));
                            let w = choose|w: int| 0 <= w < i && #[trigger] ids.take(i as int)[w] == k;
                            assert(ids.take(i + 1)[w] == k);
                        } else {
                            assert(ids.take(i + 1)[i as int] == k);
                        }
                    }
                    if ids.take(i + 1).contains(k) {
                        let w = choose|w: int| 0 <= w < i + 1 && #[trigger] ids.take(i + 1)[w] == k;
                        if w < i {
                            assert(ids.take(i as int)[w] == k);
                            assert(has_key(before, k));
                            let a = choose|a: int| 0 <= a < before.len() && #[trigger] before[a].0 == k;
                            assert(assoc_view(r@)[a].0 == k);
                        } else {
                            assert(k == ids[i as int]);
                        }
                    }
                }
            }
            i = i + 1;
        }
        assert(ids.take(self.nodes@.len() as int) =~= ids);
        let mut j: usize = 0;
        while j < edges.len()
            invariant
                0 <= j <= edges@.len(),
                ids == self.ids(),
                pairs == tree_edges(self.ids(), self.parents()),
                edges@.map_values(|e: TreeEdge| (e.parent@, e.child@)) == pairs,
                keys_distinct(assoc_view(r@)),
                forall|k: Seq<char>| has_key(assoc_view(r@), k) <==> adjacency_key(ids, pairs.take(j as int), true, k),
                forall|a: int| 0 <= a < r@.len() ==> #[trigger] assoc_view(r@)[a].1 == neighbours(
                    pairs.take(j as int),
                    true,
                    assoc_view(r@)[a].0,
                ),
            decreases edges@.len() - j,
        {
            let edge = &edges[j];
            let ghost e = pairs[j as int];
            assert(e == (edge.parent@, edge.child@));
            let ghost prefix = pairs.take(j as int);
            let ghost next = pairs.take(j + 1);
            assert(next =~= prefix.push(e));
            assert(next.drop_last() =~= prefix);
            let ghost v0 = assoc_view(r@);
            let ghost f0 = |k: Seq<char>| neighbours(prefix, true, k);
            let ghost k0 = |k: Seq<char>| adjacency_key(ids, prefix, true, k);
            proof {
                assert forall|k: Seq<char>| !#[trigger] k0(k) implies f0(k) == Seq::<Seq<char>>::empty() by {
                    lemma_neighbours_empty(ids, prefix, true, k);
                }
            }
            let s = ensure_key(&mut r, edge.parent.as_str());
            let ghost v1 = assoc_view(r@);
            append_value(&mut r, s, edge.child.clone());
            let ghost v2 = assoc_view(r@);
            proof {
                lemma_append_event(v0, v1, v2, f0, k0, e.0, e.1, s as int);
                lemma_adjacency_key_push(ids, prefix, true, e);
                assert forall|a: int| 0 <= a < v2.len() implies #[trigger] v2[a].1 == neighbours(next, true, v2[a].0) by {}
            }
            j = j + 1;
        }
        assert(pairs.take(edges@.len() as int) =~= pairs);
        r
    }

    /// Checks: some nodes, unique non-empty ids, the declared root present and
    /// parentless, exactly one root, existing parents, no cycle.
    pub fn validate(&self) -> (r: Result<(), Diagnostic>)
        ensures
            r is Ok <==> tree_valid(self.root@, self.ids(), self.parents()),
            r matches Err(d) ==> tree_error(self.root@, self.ids(), self.parents(), d),
    {
        let ghost root = self.root@;
        let ghost ids = self.ids();
        let ghost parents = self.parents();
        if self.nodes.len() == 0 {
            return Err(Diagnostic::error(DiagnosticCode::EmptyData, "树没有节点".to_string()));
        }
        let n = self.nodes.len();
        let ids_of = self.node_ids();
        let mut roots: usize = 0;
        let mut has_root = false;
        let mut i: usize = 0;
        while i < n
            invariant
                0 <= i <= n,
                n == self.nodes@.len(),
                ids == self.ids(),
                parents == self.parents(),
                root == self.root@,
                ids.len() == n,
                parents.len() == n,
                ids_of@.map_values(|s: String| s@) == ids,
                roots == root_count(parents.take(i as int)),
                roots <= i,
                has_root == (exists|k: int| 0 <= k < i && #[trigger] ids[k] == root),
                forall|k: int| 0 <= k < i ==> !#[trigger] first_pass_bad(ids, parents, root, k),
            decreases n - i,
        {
            match check_id(&ids_of, i, "树节点 ID 为空", "树节点 ID 重复：`") {
                Some(d) => {
                    assert(first_pass_first(ids, parents, root, i as int));
                    return Err(d);
                },
                None => {},
            }
            let node = &self.nodes[i];
            assert(ids[i as int] == node.id@);
            assert(parents.take(i + 1).drop_last() =~= parents.take(i as int));
            if node.parent.is_none() {
                roots = roots + 1;
            }
            if str_eq(node.id.as_str(), self.root.as_str()) {
                has_root = true;
                if node.parent.is_some() {
                    assert(first_pass_bad(ids, parents, root, i as int));
                    assert(first_pass_first(ids, parents, root, i as int));
                    return Err(Diagnostic::error(DiagnosticCode::ValidationFailed, "声明的根不能有 parent".to_string())
                        .with_param("root", self.root.clone()));
                }
            }
            proof {
                if ids[i as int] != root {
                    if exists|k: int| 0 <= k < i + 1 && #[trigger] ids[k] == root {
                        let k = choose|k: int| 0 <= k < i + 1 && #[trigger] ids[k] == root;
                        assert(k < i);
                    }
                }
            }
            i = i + 1;
        }
        assert(parents.take(n as int) =~= parents);
        proof {
            if exists|i: int| first_pass_first(ids, parents, root, i) {
                let i = choose|i: int| first_pass_first(ids, parents, root, i);
                assert(!first_pass_bad(ids, parents, root, i));
            }
            if ids.contains(root) {
                let k = choose|k: int| 0 <= k < ids.len() && ids[k] == root;
                assert(ids[k] == root);
            }
        }
        if !has_root {
            return Err(Diagnostic::error(DiagnosticCode::ValidationFailed, cat3("根 `", self.root.as_str(), "` 不在节点列表中"))
                .with_param("root", self.root.clone()));
        }
        if roots != 1 {
            let shown = decimal_string(roots);
            return Err(Diagnostic::error(
                DiagnosticCode::ValidationFailed,
                cat3("树必须恰好一个根，当前 ", shown.as_str(), " 个（森林请用显式 ForestData，禁止静默选根）"),
            ));
        }
        let mut i: usize = 0;
        while i < n
            invariant
                0 <= i <= n,
                n == self.nodes@.len(),
                ids == self.ids(),
                parents == self.parents(),
                ids.len() == n,
                parents.len() == n,
                ids_of@.map_values(|s: String| s@) == ids,
                root == self.root@,
                forall|k: int| 0 <= k < n ==> !#[trigger] first_pass_bad(ids, parents, root, k),
                ids.contains(root),
                root_count(parents) == 1,
                forall|k: int| 0 <= k < i ==> !#[trigger] parent_missing(ids, parents, k),
            decreases n - i,
        {
            let node = &self.nodes[i];
            match &node.parent {
                Some(p) => {
                    assert(parents[i as int] == Some(p@));
                    if !contains_id(&ids_of, p.as_str()) {
                        assert(first_parent_missing(ids, parents, i as int));
                        proof {
                            if exists|j: int| first_pass_first(ids, parents, root, j) {
                                let j = choose|j: int| first_pass_first(ids, parents, root, j);
                                assert(!first_pass_bad(ids, parents, root, j));
                            }
                        }
                        return Err(Diagnostic::error(DiagnosticCode::UnknownColumn, cat3("父节点 `", p.as_str(), "` 不存在"))
                            .with_param("node", p.clone()));
                    }
                },
                None => {
                    assert(parents[i as int] is None);
                },
            }
            i = i + 1;
        }
        proof {
            if exists|i: int| first_parent_missing(ids, parents, i) {
                let i = choose|i: int| first_parent_missing(ids, parents, i);
                assert(!parent_missing(ids, parents, i));
            }
        }
        let mut i: usize = 0;
        while i < n
            invariant
                0 <= i <= n,
                n == self.nodes@.len(),
                ids == self.ids(),
                parents == self.parents(),
                ids.len() == n,
                parents.len() == n,
                ids_of@.map_values(|s: String| s@) == ids,
                forall|k: int| 0 <= k < n ==> !#[trigger] parent_missing(ids, parents, k),
                root == self.root@,
                forall|k: int| 0 <= k < n ==> !#[trigger] first_pass_bad(ids, parents, root, k),
                ids.contains(root),
                root_count(parents) == 1,
                forall|k: int| 0 <= k < i ==> #[trigger] reaches_top(ids, parents, k, n as nat),
            decreases n - i,
        {
            let mut cur: usize = i;
            let mut steps: usize = 0;
            while steps < n && self.nodes[cur].parent.is_some()
                invariant
                    0 <= steps <= n,
                    0 <= cur < n,
                    n == self.nodes@.len(),
                    ids == self.ids(),
                    parents == self.parents(),
                    ids.len() == n,
                    parents.len() == n,
                    ids_of@.map_values(|s: String| s@) == ids,
                    forall|k: int| 0 <= k < n ==> !#[trigger] parent_missing(ids, parents, k),
                    reaches_top(ids, parents, i as int, n as nat) == reaches_top(ids, parents, cur as int, (n - steps) as nat),
                decreases n - steps,
            {
                let p = self.nodes[cur].parent.as_ref().unwrap();
                assert(parents[cur as int] == Some(p@));
                assert(!parent_missing(ids, parents, cur as int));
                match find_id(&ids_of, p.as_str()) {
                    Some(j) => {
                        proof {
                            assert(ids[j as int] == ids_of@[j as int]@);
                            assert forall|k: int| 0 <= k < j implies #[trigger] ids[k] != p@ by {
                                assert(ids[k] == ids_of@[k]@);
                            }
                            lemma_index_of_id(ids, p@, j as int);
                        }
                        cur = j;
                    },
                    None => {
                        assert(false);
                    },
                }
                steps = steps + 1;
            }
            if self.nodes[cur].parent.is_some() {
                assert(steps == n);
                assert(!reaches_top(ids, parents, cur as int, 0));
                assert(first_cycle(ids, parents, i as int));
                proof {
                    if exists|j: int| first_pass_first(ids, parents, root, j) {
                        let j = choose|j: int| first_pass_first(ids, parents, root, j);
                        assert(!first_pass_bad(ids, parents, root, j));
                    }
                    if exists|j: int| first_parent_missing(ids, parents, j) {
                        let j = choose|j: int| first_parent_missing(ids, parents, j);
                        assert(!parent_missing(ids, parents, j));
                    }
                }
                return Err(Diagnostic::error(DiagnosticCode::ValidationFailed, "树存在环".to_string())
                    .with_param("node", self.nodes[i].id.clone()));
            }
            i = i + 1;
        }
        Ok(())
    }
}

/// Following parents from `i`, the node with id `target` is met within `fuel` steps.
pub open spec fn reaches(ids: Seq<Seq<char>>, parents: Seq<Option<Seq<char>>>, i: int, target: Seq<char>, fuel: nat) -> bool
    decreases fuel,
{
    ids[i] == target || match parents[i] {
        None => false,
        Some(p) => fuel > 0 && reaches(ids, parents, index_of_id(ids, p), target, (fuel - 1) as nat),
    }
}

proof fn lemma_root_count_one(parents: Seq<Option<Seq<char>>>, a: int)
    requires
        0 <= a < parents.len(),
        parents[a] is None,
    ensures
        root_count(parents) >= 1,
    decreases parents.len(),
{
    if a < parents.len() - 1 {
        lemma_root_count_one(parents.drop_last(), a);
    }
}

proof fn lemma_root_count_two(parents: Seq<Option<Seq<char>>>, a: int, b: int)
    requires
        0 <= a < b < parents.len(),
        parents[a] is None,
        parents[b] is None,
    ensures
        root_count(parents) >= 2,
    decreases parents.len(),
{
    if b == parents.len() - 1 {
        lemma_root_count_one(parents.drop_last(), a);
    } else {
        lemma_root_count_two(parents.drop_last(), a, b);
    }
}

proof fn lemma_edges_plus_roots(ids: Seq<Seq<char>>, parents: Seq<Option<Seq<char>>>)
    requires
        ids.len() == parents.len(),
    ensures
        tree_edges(ids, parents).len() + root_count(parents) == ids.len(),
    decreases ids.len(),
{
    if ids.len() > 0 {
        lemma_edges_plus_roots(ids.drop_last(), parents.drop_last());
    }
}

/// A valid tree has exactly one edge fewer than it has nodes.
pub proof fn valid_tree_edge_count(t: TreeData)
    requires
        tree_valid(t.root@, t.ids(), t.parents()),
    ensures
        tree_edges(t.ids(), t.parents()).len() == t.nodes@.len() - 1,
{
    lemma_edges_plus_roots(t.ids(), t.parents());
}

/// In a valid tree the declared root is the only node without a parent.
pub proof fn valid_tree_single_root(t: TreeData, i: int)
    requires
        tree_valid(t.root@, t.ids(), t.parents()),
        0 <= i < t.nodes@.len(),
        t.parents()[i] is None,
    ensures
        t.ids()[i] == t.root@,
{
    let ids = t.ids();
    let parents = t.parents();
    let root = t.root@;
    let k = choose|k: int| 0 <= k < ids.len() && ids[k] == root;
    assert(!first_pass_bad(ids, parents, root, k));
    if i != k {
        if i < k {
            lemma_root_count_two(parents, i, k);
        } else {
            lemma_root_count_two(parents, k, i);
        }
    }
}

proof fn lemma_top_is_root(t: TreeData, i: int, fuel: nat)
    requires
        tree_valid(t.root@, t.ids(), t.parents()),
        0 <= i < t.nodes@.len(),
        reaches_top(t.ids(), t.parents(), i, fuel),
    ensures
        reaches(t.ids(), t.parents(), i, t.root@, fuel),
    decreases fuel,
{
    let ids = t.ids();
    let parents = t.parents();
    match parents[i] {
        None => {
            valid_tree_single_root(t, i);
        },
        Some(p) => {
            if ids[i] != t.root@ {
                assert(!parent_missing(ids, parents, i));
                let j = choose|j: int| 0 <= j < ids.len() && ids[j] == p;
                lemma_first_occurrence(ids, p, j);
                lemma_top_is_root(t, index_of_id(ids, p), (fuel - 1) as nat);
            }
        },
    }
}

proof fn lemma_first_occurrence(ids: Seq<Seq<char>>, p: Seq<char>, j: int)
    requires
        0 <= j < ids.len(),
        ids[j] == p,
    ensures
        exists|c: int| 0 <= c < ids.len() && ids[c] == p && forall|k: int| 0 <= k < c ==> #[trigger] ids[k] != p,
    decreases j,
{
    if exists|k: int| 0 <= k < j && ids[k] == p {
        let k = choose|k: int| 0 <= k < j && ids[k] == p;
        lemma_first_occurrence(ids, p, k);
    } else {
        assert(forall|k: int| 0 <= k < j ==> #[trigger] ids[k] != p);
    }
}

/// In a valid tree, following parents from any node reaches the declared root.
pub proof fn valid_tree_nodes_reach_root(t: TreeData, i: int)
    requires
        tree_valid(t.root@, t.ids(), t.parents()),
        0 <= i < t.nodes@.len(),
    ensures
        reaches(t.ids(), t.parents(), i, t.root@, t.nodes@.len() as nat),
{
    assert(reaches_top(t.ids(), t.parents(), i, t.ids().len()));
    lemma_top_is_root(t, i, t.nodes@.len() as nat);
}

} // verus!
