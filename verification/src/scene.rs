//! The scene node arena: nodes with stable ids, handed out in insertion order,
//! and the pre-order walk that finds the drawable nodes under a root.
use vstd::prelude::*;
use crate::types::{Diagnostic, DiagnosticCode, cat2, decimal, decimal_string_wide};

verus! {

/// The id of a scene node.
#[derive(Debug, Clone, Copy, PartialEq, Eq, Structural)]
pub struct NodeId(pub u64);

/// A scene node: its id and its payload.
#[derive(Debug)]
pub struct SceneNode<K> {
    /// Id.
    pub id: NodeId,
    /// Payload.
    pub kind: K,
}

/// Scene nodes with ids allocated from a counter; the `k`-th node inserted has id `k`.
#[derive(Debug)]
pub struct SceneArena<K> {
    nodes: Vec<SceneNode<K>>,
    next_id: u64,
}

impl<K> View for SceneArena<K> {
    type V = Seq<K>;

    /// The payloads in insertion order; the payload at position `k` has id `k`.
    closed spec fn view(&self) -> Seq<K> {
        self.nodes@.map_values(|n: SceneNode<K>| n.kind)
    }
}

impl<K> SceneArena<K> {
    #[verifier::type_invariant]
    spec fn ids_follow_positions(self) -> bool {
        &&& self.next_id == self.nodes@.len()
        &&& forall|k: int| 0 <= k < self.nodes@.len() ==> (#[trigger] self.nodes@[k]).id.0 == k
    }

    /// An empty arena.
    pub fn new() -> (a: SceneArena<K>)
        ensures
            a@ == Seq::<K>::empty(),
    {
        let a = SceneArena { nodes: Vec::new(), next_id: 0 };
        assert(a@ =~= Seq::<K>::empty());
        a
    }

    /// Inserts a node under the next id and returns that id.
    pub fn insert(&mut self, kind: K) -> (id: NodeId)
        requires
            old(self)@.len() < u64::MAX,
        ensures
            final(self)@ == old(self)@.push(kind),
            id.0 == old(self)@.len(),
    {
        proof { use_type_invariant(&*self); }
        let mut taken = SceneArena { nodes: Vec::new(), next_id: 0 };
        std::mem::swap(self, &mut taken);
        proof { use_type_invariant(&taken); }
        let next_id = taken.next_id;
        let mut nodes = taken.nodes;
        let ghost before = nodes@;
        let id = NodeId(next_id);
        nodes.push(SceneNode { id, kind });
        assert(nodes@.map_values(|n: SceneNode<K>| n.kind) =~= before.map_values(|n: SceneNode<K>| n.kind).push(kind));
        assert forall|k: int| 0 <= k < nodes@.len() implies (#[trigger] nodes@[k]).id.0 == k by {
            if k < before.len() {
                assert(nodes@[k] == before[k]);
            }
        }
        *self = SceneArena { nodes, next_id: next_id + 1 };
        id
    }

    /// The node with id `id`.
    pub fn get(&self, id: NodeId) -> (r: Option<&SceneNode<K>>)
        ensures
            match r {
                Some(n) => id.0 < self@.len() && n.id == id && n.kind == self@[id.0 as int],
                None => id.0 >= self@.len(),
            },
    {
        proof { use_type_invariant(self); }
        let len = self.nodes.len();
        if id.0 < self.next_id {
            assert(id.0 < len);
            let k = id.0 as usize;
            assert(k == id.0);
            let n = &self.nodes[k];
            assert(n.id.0 == id.0);
            assert(self@[k as int] == self.nodes@[k as int].kind);
            Some(n)
        } else {
            None
        }
    }

    /// Every node, in id order.
    pub fn nodes(&self) -> (s: &[SceneNode<K>])
        ensures
            s@.map_values(|n: SceneNode<K>| n.kind) == self@,
            forall|k: int| 0 <= k < s@.len() ==> (#[trigger] s@[k]).id.0 == k,
    {
        proof { use_type_invariant(self); }
        self.nodes.as_slice()
    }

    /// Number of nodes.
    pub fn len(&self) -> (n: usize)
        ensures
            n == self@.len(),
    {
        self.nodes.len()
    }

    /// Whether the arena has no node.
    pub fn is_empty(&self) -> (b: bool)
        ensures
            b == (self@.len() == 0),
    {
        self.nodes.len() == 0
    }
}

/// A node read back under the id its insertion returned is the node inserted,
/// and every node inserted before keeps its id and payload.
pub proof fn get_after_insert<K>(before: Seq<K>, after: Seq<K>, kind: K, id: NodeId, other: NodeId)
    requires
        after == before.push(kind),
        id.0 == before.len(),
        other.0 < before.len(),
    ensures
        id.0 < after.len() && after[id.0 as int] == kind,
        other.0 < after.len() && after[other.0 as int] == before[other.0 as int],
{
}

/// What a walk needs to know of a node: a group and its children, or a drawable leaf.
#[derive(Debug)]
pub enum NodeShape {
    /// A group; its children are walked in order.
    Group(Vec<NodeId>),
    /// A drawable node.
    Leaf,
}

/// Why a walk stopped.
#[derive(Debug, Clone, Copy, PartialEq, Eq, Structural)]
pub enum WalkStop {
    /// A node refers to an id that no node has.
    Missing(NodeId),
    /// The walk reached this node nested deeper than the budget allows (the groups form a cycle).
    TooDeep(NodeId),
}

/// The drawable nodes under `id`, in pre-order, with at most `fuel` nested levels,
/// or where the walk stopped first.
pub open spec fn walk(shapes: Seq<NodeShape>, id: NodeId, fuel: nat) -> Result<Seq<NodeId>, WalkStop>
    decreases fuel, 0nat,
{
    if id.0 >= shapes.len() {
        Err(WalkStop::Missing(id))
    } else if fuel == 0 {
        Err(WalkStop::TooDeep(id))
    } else {
        match shapes[id.0 as int] {
            NodeShape::Leaf => Ok(seq![id]),
            NodeShape::Group(children) => walk_all(shapes, children@, (fuel - 1) as nat),
        }
    }
}

/// The drawable nodes under each of `ids` in turn, or where the walk stopped first.
pub open spec fn walk_all(shapes: Seq<NodeShape>, ids: Seq<NodeId>, fuel: nat) -> Result<Seq<NodeId>, WalkStop>
    decreases fuel, ids.len() + 1,
{
    if ids.len() == 0 {
        Ok(Seq::empty())
    } else {
        match walk_all(shapes, ids.drop_last(), fuel) {
            Ok(front) => match walk(shapes, ids.last(), fuel) {
                Ok(back) => Ok(front + back),
                Err(e) => Err(e),
            },
            Err(e) => Err(e),
        }
    }
}

/// Once a prefix of `ids` stops the walk, the walk of all of `ids` stops there too.
proof fn lemma_walk_all_stops(shapes: Seq<NodeShape>, ids: Seq<NodeId>, j: int, fuel: nat)
    requires
        0 <= j <= ids.len(),
        walk_all(shapes, ids.take(j), fuel) is Err,
    ensures
        walk_all(shapes, ids, fuel) == walk_all(shapes, ids.take(j), fuel),
    decreases ids.len() - j,
{
    if j < ids.len() {
        assert(ids.take(j + 1).drop_last() =~= ids.take(j));
        lemma_walk_all_stops(shapes, ids, j + 1, fuel);
    } else {
        assert(ids.take(j) =~= ids);
    }
}

fn walk_into(shapes: &Vec<NodeShape>, id: NodeId, fuel: usize, out: &mut Vec<NodeId>) -> (r: Result<(), WalkStop>)
    ensures
        match walk(shapes@, id, fuel as nat) {
            Ok(s) => r is Ok && final(out)@ == old(out)@ + s,
            Err(e) => r == Err::<(), WalkStop>(e),
        },
    decreases fuel,
{
    if id.0 >= shapes.len() as u64 {
        return Err(WalkStop::Missing(id));
    }
    if fuel == 0 {
        return Err(WalkStop::TooDeep(id));
    }
    let idx = id.0 as usize;
    match &shapes[idx] {
        NodeShape::Leaf => {
            let ghost before = out@;
            out.push(id);
            assert(out@ =~= before + seq![id]);
            Ok(())
        },
        NodeShape::Group(children) => {
            let ghost start = out@;
            let ghost ch = children@;
            assert(ch.take(0) =~= Seq::<NodeId>::empty());
            assert(walk(shapes@, id, fuel as nat) == walk_all(shapes@, ch, (fuel - 1) as nat));
            let mut k: usize = 0;
            while k < children.len()
                invariant
                    ch == children@,
                    k <= ch.len(),
                    fuel >= 1,
                    walk(shapes@, id, fuel as nat) == walk_all(shapes@, ch, (fuel - 1) as nat),
                    walk_all(shapes@, ch.take(k as int), (fuel - 1) as nat) is Ok,
                    out@ == start + walk_all(shapes@, ch.take(k as int), (fuel - 1) as nat)->Ok_0,
                decreases ch.len() - k,
            {
                let child = children[k];
                let res = walk_into(shapes, child, fuel - 1, out);
                assert(ch.take(k + 1).drop_last() =~= ch.take(k as int));
                assert(ch.take(k + 1).last() == child);
                match res {
                    Err(e) => {
                        proof {
                            assert(walk_all(shapes@, ch.take(k + 1), (fuel - 1) as nat) == Err::<Seq<NodeId>, WalkStop>(e));
                            lemma_walk_all_stops(shapes@, ch, k + 1, (fuel - 1) as nat);
                        }
                        return Err(e);
                    },
                    Ok(()) => {},
                }
                k = k + 1;
            }
            assert(ch.take(k as int) =~= ch);
            Ok(())
        },
    }
}

/// Whether the pre-order walk from `root` ends: it does unless it enters a
/// cycle of groups before it meets a missing node, and a walk that nests deeper
/// than the number of nodes has entered one.
pub fn walk_ends(shapes: &Vec<NodeShape>, root: NodeId) -> (b: bool)
    ensures
        b == !(walk(shapes@, root, shapes@.len()) matches Err(WalkStop::TooDeep(_))),
{
    let mut scratch: Vec<NodeId> = Vec::new();
    match walk_into(shapes, root, shapes.len(), &mut scratch) {
        Err(WalkStop::TooDeep(_)) => false,
        _ => true,
    }
}

/// The drawable nodes under `root` in pre-order: a group's children in turn, a
/// leaf itself. A reference to an absent node is an error (`RenderFailed`, with
/// the id). A walk that enters a cycle of groups never ends, so such scenes are
/// outside what this accepts; `walk_ends` tells them apart.
pub fn drawable_order(shapes: &Vec<NodeShape>, root: NodeId) -> (r: Result<Vec<NodeId>, Diagnostic>)
    requires
        !(walk(shapes@, root, shapes@.len()) matches Err(WalkStop::TooDeep(_))),
    ensures
        walk(shapes@, root, shapes@.len()) matches Ok(s) ==> r is Ok && r->Ok_0@ == s,
        walk(shapes@, root, shapes@.len()) matches Err(WalkStop::Missing(m)) ==> r is Err && r->Err_0.matches(
            DiagnosticCode::RenderFailed,
            "缺失场景节点 "@ + decimal(m.0 as nat),
            seq![("node"@, decimal(m.0 as nat))],
        ),
{
    let mut out: Vec<NodeId> = Vec::new();
    match walk_into(shapes, root, shapes.len(), &mut out) {
        Ok(()) => {
            assert(out@ =~= Seq::<NodeId>::empty() + out@);
            Ok(out)
        },
        Err(WalkStop::Missing(m)) => {
            let shown = decimal_string_wide(m.0 as u128);
            let param = decimal_string_wide(m.0 as u128);
            let d = Diagnostic::error(DiagnosticCode::RenderFailed, cat2("缺失场景节点 ", shown.as_str()));
            Err(d.with_param("node", param))
        },
        Err(WalkStop::TooDeep(_)) => {
            assert(false);
            Ok(out)
        },
    }
}

/// Every group's children were inserted before the group (as scene builders do).
pub open spec fn built_bottom_up(shapes: Seq<NodeShape>) -> bool {
    forall|g: int, c: int|
        #![trigger shapes[g], shape_children(shapes[g])[c]]
        0 <= g < shapes.len() && shapes[g] is Group && 0 <= c < shape_children(shapes[g]).len()
            ==> shape_children(shapes[g])[c].0 < g
}

/// The children of a group node (none for a leaf).
pub open spec fn shape_children(s: NodeShape) -> Seq<NodeId> {
    match s {
        NodeShape::Group(children) => children@,
        NodeShape::Leaf => Seq::empty(),
    }
}

/// A walk that finishes hands out only drawable leaves of the scene.
pub proof fn walk_yields_leaves(shapes: Seq<NodeShape>, id: NodeId, fuel: nat)
    requires
        walk(shapes, id, fuel) is Ok,
    ensures
        forall|i: int|
            0 <= i < walk(shapes, id, fuel)->Ok_0.len() ==> {
                let n = #[trigger] walk(shapes, id, fuel)->Ok_0[i];
                n.0 < shapes.len() && shapes[n.0 as int] is Leaf
            },
    decreases fuel, 0nat,
{
    if id.0 < shapes.len() && fuel > 0 {
        match shapes[id.0 as int] {
            NodeShape::Leaf => {},
            NodeShape::Group(children) => {
                walk_all_yields_leaves(shapes, children@, (fuel - 1) as nat);
            },
        }
    }
}

/// A walk of a list of nodes that finishes hands out only drawable leaves.
pub proof fn walk_all_yields_leaves(shapes: Seq<NodeShape>, ids: Seq<NodeId>, fuel: nat)
    requires
        walk_all(shapes, ids, fuel) is Ok,
    ensures
        forall|i: int|
            0 <= i < walk_all(shapes, ids, fuel)->Ok_0.len() ==> {
                let n = #[trigger] walk_all(shapes, ids, fuel)->Ok_0[i];
                n.0 < shapes.len() && shapes[n.0 as int] is Leaf
            },
    decreases fuel, ids.len() + 1,
{
    if ids.len() > 0 {
        walk_all_yields_leaves(shapes, ids.drop_last(), fuel);
        walk_yields_leaves(shapes, ids.last(), fuel);
        let front = walk_all(shapes, ids.drop_last(), fuel)->Ok_0;
        let back = walk(shapes, ids.last(), fuel)->Ok_0;
        assert forall|i: int| 0 <= i < (front + back).len() implies {
            let n = #[trigger] (front + back)[i];
            n.0 < shapes.len() && shapes[n.0 as int] is Leaf
        } by {
            if i < front.len() {
                assert((front + back)[i] == front[i]);
            } else {
                assert((front + back)[i] == back[i - front.len()]);
            }
        }
    }
}

/// In a scene built bottom-up, a walk from a node with more budget than its id
/// never runs too deep: it finishes or meets a missing node.
pub proof fn bottom_up_walk_ends(shapes: Seq<NodeShape>, id: NodeId, fuel: nat)
    requires
        built_bottom_up(shapes),
        fuel > id.0,
    ensures
        !(walk(shapes, id, fuel) matches Err(WalkStop::TooDeep(_))),
    decreases fuel, 0nat,
{
    if id.0 < shapes.len() {
        match shapes[id.0 as int] {
            NodeShape::Leaf => {},
            NodeShape::Group(children) => {
                assert forall|c: int| 0 <= c < children@.len() implies (#[trigger] children@[c]).0 < id.0 by {
                    assert(shape_children(shapes[id.0 as int])[c] == children@[c]);
                }
                bottom_up_walk_all_ends(shapes, children@, (fuel - 1) as nat);
            },
        }
    }
}

/// In a scene built bottom-up, a walk of nodes whose ids are below the budget
/// never runs too deep.
pub proof fn bottom_up_walk_all_ends(shapes: Seq<NodeShape>, ids: Seq<NodeId>, fuel: nat)
    requires
        built_bottom_up(shapes),
        forall|c: int| 0 <= c < ids.len() ==> (#[trigger] ids[c]).0 < fuel,
    ensures
        !(walk_all(shapes, ids, fuel) matches Err(WalkStop::TooDeep(_))),
    decreases fuel, ids.len() + 1,
{
    if ids.len() > 0 {
        assert forall|c: int| 0 <= c < ids.drop_last().len() implies (#[trigger] ids.drop_last()[c]).0 < fuel by {
            assert(ids.drop_last()[c] == ids[c]);
        }
        bottom_up_walk_all_ends(shapes, ids.drop_last(), fuel);
        assert(ids.last() == ids[ids.len() - 1]);
        bottom_up_walk_ends(shapes, ids.last(), fuel);
    }
}

/// Scene metadata.
#[derive(Debug)]
pub struct SceneMetadata {
    /// Optional title.
    pub title: Option<String>,
}

impl Default for SceneMetadata {
    fn default() -> (m: SceneMetadata)
        ensures
            m.title is None,
    {
        SceneMetadata { title: None }
    }
}

} // verus!
