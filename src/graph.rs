//! The workflow document and the graph built from it.
use vstd::prelude::*;
use vstd::hash_map::HashMapWithView;
use crate::error::{ErrorKind, ExecError};

verus! {

broadcast use vstd::std_specs::hash::group_hash_axioms;

/// The kind of a node.
#[derive(Debug, Clone, Copy, PartialEq, Eq, Structural)]
pub enum ZapType {
    Arithmetic,
    Root,
    Action,
}

/// The kind of an action node.
#[derive(Debug, Clone, Copy, PartialEq, Eq, Structural)]
pub enum ActionType {
    SwapExactEthForTokens,
}

/// A guard on an edge: `left operator right`.
#[derive(Debug, Clone)]
pub struct Condition {
    pub right: String,
    pub left: String,
    pub operator: String,
}

/// The payload of a node; which fields it needs depends on its kind.
#[derive(Debug, Clone)]
pub struct NodeData {
    pub left: Option<String>,
    pub right: Option<String>,
    pub operator: Option<String>,
    pub result: Option<String>,
    pub token_from_address: Option<String>,
    pub token_to_address: Option<String>,
    pub token_from_amount: Option<String>,
    pub action_type: Option<ActionType>,
}

/// An outgoing edge of a node in the document, by the target's id.
#[derive(Debug, Clone)]
pub struct Edge {
    pub id: u32,
    pub condition: Option<Condition>,
}

/// A node of the document.
#[derive(Debug, Clone)]
pub struct Node {
    pub id: u32,
    pub children: Option<Vec<Edge>>,
    pub zap_type: ZapType,
    pub data: Option<NodeData>,
}

/// An edge of the built graph, by the target's index.
#[derive(Debug)]
pub struct DagEdge {
    pub target: usize,
    pub condition: Option<Condition>,
}

/// A node of the built graph with its outgoing edges in declared order.
#[derive(Debug)]
pub struct DagNode {
    pub id: u32,
    pub zap_type: ZapType,
    pub data: Option<NodeData>,
    pub edges: Vec<DagEdge>,
}

/// The built graph. `rank` orders the nodes so that every edge leads to a
/// higher rank, which makes the graph acyclic.
#[derive(Debug)]
pub struct Dag {
    pub nodes: Vec<DagNode>,
    pub rank: Vec<usize>,
}

/// Every edge of `nodes` leads to one of them, of a higher rank.
pub open spec fn ranked(nodes: Seq<DagNode>, rank: Seq<usize>) -> bool {
    &&& rank.len() == nodes.len()
    &&& forall|u: int| 0 <= u < nodes.len() ==> #[trigger] rank[u] <= nodes.len()
    &&& forall|u: int, j: int|
        0 <= u < nodes.len() && 0 <= j < nodes[u].edges@.len() ==> {
            let t = (#[trigger] nodes[u].edges@[j]).target as int;
            t < nodes.len() && rank[u] < rank[t]
        }
}

/// Every edge of `nodes` leads to one of them.
pub open spec fn closed_edges(nodes: Seq<DagNode>) -> bool {
    forall|u: int, j: int|
        0 <= u < nodes.len() && 0 <= j < nodes[u].edges@.len() ==> (
        #[trigger] nodes[u].edges@[j]).target < nodes.len()
}

impl Dag {
    /// Every edge leads to a node of the graph, of a higher rank.
    pub open spec fn wf(&self) -> bool {
        ranked(self.nodes@, self.rank@)
    }
}

/// The declared outgoing edges of a node.
pub open spec fn children_of(n: Node) -> Seq<Edge> {
    match n.children {
        Some(v) => v@,
        None => Seq::empty(),
    }
}

/// No two nodes share an id.
pub open spec fn unique_ids(doc: Seq<Node>) -> bool {
    forall|i: int, j: int| 0 <= i < j < doc.len() ==> doc[i].id != doc[j].id
}

/// The node at `i` is a root.
pub open spec fn is_root(doc: Seq<Node>, i: int) -> bool {
    0 <= i < doc.len() && doc[i].zap_type == ZapType::Root
}

/// The node at `r` is the one root of the document.
pub open spec fn single_root(doc: Seq<Node>, r: int) -> bool {
    is_root(doc, r) && forall|i: int| #[trigger] is_root(doc, i) ==> i == r
}

/// Some node has the id `id`.
pub open spec fn has_id(doc: Seq<Node>, id: u32) -> bool {
    exists|i: int| 0 <= i < doc.len() && #[trigger] doc[i].id == id
}

/// Every edge names the id of a node of the document.
pub open spec fn targets_resolve(doc: Seq<Node>) -> bool {
    forall|i: int, j: int|
        0 <= i < doc.len() && 0 <= j < children_of(doc[i]).len() ==> has_id(
            doc,
            #[trigger] children_of(doc[i])[j].id,
        )
}

/// `rho` numbers the nodes of `doc` so that every edge rises.
pub open spec fn rises(doc: Seq<Node>, rho: spec_fn(int) -> nat) -> bool {
    forall|i: int, j: int, k: int|
        #![trigger children_of(doc[i])[j], doc[k]]
        0 <= i < doc.len() && 0 <= j < children_of(doc[i]).len() && 0 <= k < doc.len() && doc[k].id
            == children_of(doc[i])[j].id ==> rho(i) < rho(k)
}

/// The edges of `doc` form no cycle: some numbering makes them all rise.
pub open spec fn acyclic(doc: Seq<Node>) -> bool {
    exists|rho: spec_fn(int) -> nat| rises(doc, rho)
}

/// A document the graph can be built from: unique ids, exactly one root,
/// edges to known ids only, and no cycle.
pub open spec fn well_formed(doc: Seq<Node>) -> bool {
    &&& unique_ids(doc)
    &&& exists|r: int| single_root(doc, r)
    &&& targets_resolve(doc)
    &&& acyclic(doc)
}

/// `g` is `doc` with each edge's target id replaced by the target's index.
pub open spec fn built_from(g: Dag, doc: Seq<Node>) -> bool {
    &&& g.nodes@.len() == doc.len()
    &&& forall|i: int|
        #![trigger g.nodes@[i]]
        0 <= i < doc.len() ==> {
            &&& g.nodes@[i].id == doc[i].id
            &&& g.nodes@[i].zap_type == doc[i].zap_type
            &&& g.nodes@[i].data == doc[i].data
            &&& g.nodes@[i].edges@.len() == children_of(doc[i]).len()
        }
    &&& forall|i: int, j: int|
        0 <= i < doc.len() && 0 <= j < children_of(doc[i]).len() ==> {
            let e = #[trigger] g.nodes@[i].edges@[j];
            &&& e.target < doc.len()
            &&& doc[e.target as int].id == children_of(doc[i])[j].id
            &&& e.condition == children_of(doc[i])[j].condition
        }
}

fn copy_text(o: &Option<String>) -> (r: Option<String>)
    ensures
        r == *o,
{
    match o {
        Some(s) => Some(s.clone()),
        None => None,
    }
}

impl Condition {
    /// A copy of the condition.
    pub fn copy(&self) -> (r: Condition)
        ensures
            r == *self,
    {
        Condition {
            right: self.right.clone(),
            left: self.left.clone(),
            operator: self.operator.clone(),
        }
    }
}

impl NodeData {
    /// A copy of the payload.
    pub fn copy(&self) -> (r: NodeData)
        ensures
            r == *self,
    {
        NodeData {
            left: copy_text(&self.left),
            right: copy_text(&self.right),
            operator: copy_text(&self.operator),
            result: copy_text(&self.result),
            token_from_address: copy_text(&self.token_from_address),
            token_to_address: copy_text(&self.token_to_address),
            token_from_amount: copy_text(&self.token_from_amount),
            action_type: self.action_type,
        }
    }
}

fn copy_data(o: &Option<NodeData>) -> (r: Option<NodeData>)
    ensures
        r == *o,
{
    match o {
        Some(d) => Some(d.copy()),
        None => None,
    }
}

fn copy_condition(o: &Option<Condition>) -> (r: Option<Condition>)
    ensures
        r == *o,
{
    match o {
        Some(c) => Some(c.copy()),
        None => None,
    }
}

fn malformed(node: Option<u32>) -> (e: ExecError)
    ensures
        e.kind == ErrorKind::MalformedDocument,
        e.node == node,
{
    ExecError { kind: ErrorKind::MalformedDocument, node }
}

/// Maps each id to its node's index and finds the one root.
fn index_ids(doc: &Vec<Node>) -> (r: Result<(HashMapWithView<u32, usize>, usize), ExecError>)
    ensures
        match r {
            Ok((m, root)) => {
                &&& unique_ids(doc@)
                &&& single_root(doc@, root as int)
                &&& forall|id: u32| #[trigger] m@.contains_key(id) == has_id(doc@, id)
                &&& forall|id: u32|
                    #[trigger] m@.contains_key(id) ==> m@[id] < doc@.len() && doc@[m@[id] as int].id
                        == id
            },
            Err(e) => e.kind == ErrorKind::MalformedDocument && (!unique_ids(doc@) || !exists|
                root: int,
            | single_root(doc@, root)),
        },
{
    let mut m: HashMapWithView<u32, usize> = HashMapWithView::new();
    let mut root: Option<usize> = None;
    let mut i: usize = 0;
    while i < doc.len()
        invariant
            i <= doc@.len(),
            forall|k: int| 0 <= k < i ==> #[trigger] m@.contains_key(doc@[k].id),
            forall|id: u32|
                #[trigger] m@.contains_key(id) ==> m@[id] < i && doc@[m@[id] as int].id == id,
            forall|a: int, b: int| 0 <= a < b < i ==> doc@[a].id != doc@[b].id,
            match root {
                Some(r) => r < i && is_root(doc@, r as int) && forall|k: int|
                    0 <= k < i && #[trigger] is_root(doc@, k) ==> k == r,
                None => forall|k: int| 0 <= k < i ==> !#[trigger] is_root(doc@, k),
            },
        decreases doc@.len() - i,
    {
        let node = &doc[i];
        if m.contains_key(&node.id) {
            assert(doc@[m@[node.id] as int].id == doc@[i as int].id);
            return Err(malformed(Some(node.id)));
        }
        m.insert(node.id, i);
        if node.zap_type == ZapType::Root {
            if root.is_some() {
                assert(is_root(doc@, i as int));
                assert forall|r2: int| !single_root(doc@, r2) by {
                    if single_root(doc@, r2) {
                        assert(is_root(doc@, root.unwrap() as int));
                    }
                }
                return Err(malformed(Some(node.id)));
            }
            root = Some(i);
        }
        i = i + 1;
    }
    match root {
        Some(r) => {
            assert forall|id: u32| #[trigger] m@.contains_key(id) == has_id(doc@, id) by {
                if has_id(doc@, id) {
                    let k = choose|k: int| 0 <= k < doc@.len() && #[trigger] doc@[k].id == id;
                    assert(m@.contains_key(doc@[k].id));
                }
            }
            Ok((m, r))
        },
        None => {
            assert forall|r2: int| !single_root(doc@, r2) by {
                if single_root(doc@, r2) {
                    assert(is_root(doc@, r2));
                }
            }
            Err(malformed(None))
        },
    }
}

/// The edges of a node with each target id replaced by its index.
fn resolve_edges(node: &Node, m: &HashMapWithView<u32, usize>, n: usize) -> (r: Result<
    Vec<DagEdge>,
    ExecError,
>)
    requires
        forall|id: u32| #[trigger] m@.contains_key(id) ==> m@[id] < n,
    ensures
        match r {
            Ok(es) => {
                &&& es@.len() == children_of(*node).len()
                &&& forall|j: int|
                    0 <= j < es@.len() ==> {
                        let e = #[trigger] es@[j];
                        &&& m@.contains_key(children_of(*node)[j].id)
                        &&& e.target == m@[children_of(*node)[j].id]
                        &&& e.condition == children_of(*node)[j].condition
                    }
            },
            Err(e) => e.kind == ErrorKind::MalformedDocument && exists|j: int|
                0 <= j < children_of(*node).len() && !m@.contains_key(
                    #[trigger] children_of(*node)[j].id,
                ),
        },
{
    let mut es: Vec<DagEdge> = Vec::new();
    match &node.children {
        None => {
            assert(es@ =~= Seq::<DagEdge>::empty());
            Ok(es)
        },
        Some(children) => {
            let mut j: usize = 0;
            while j < children.len()
                invariant
                    children@ == children_of(*node),
                    j <= children@.len(),
                    es@.len() == j,
                    forall|k: int|
                        0 <= k < j ==> {
                            let e = #[trigger] es@[k];
                            &&& m@.contains_key(children@[k].id)
                            &&& e.target == m@[children@[k].id]
                            &&& e.condition == children@[k].condition
                        },
                decreases children@.len() - j,
            {
                let c = &children[j];
                match m.get(&c.id) {
                    Some(t) => {
                        es.push(DagEdge { target: *t, condition: copy_condition(&c.condition) });
                    },
                    None => {
                        return Err(malformed(Some(node.id)));
                    },
                }
                j = j + 1;
            }
            Ok(es)
        },
    }
}

/// `rho` numbers the nodes so that every edge rises.
pub open spec fn rising(nodes: Seq<DagNode>, rho: spec_fn(int) -> nat) -> bool {
    forall|u: int, j: int|
        0 <= u < nodes.len() && 0 <= j < nodes[u].edges@.len() ==> rho(u) < rho(
            (#[trigger] nodes[u].edges@[j]).target as int,
        )
}

/// Some node not yet placed has an edge into `v`.
pub open spec fn blocked(nodes: Seq<DagNode>, placed: Seq<bool>, v: int) -> bool {
    exists|a: int, j: int|
        0 <= a < nodes.len() && !placed[a] && 0 <= j < nodes[a].edges@.len() && (
        #[trigger] nodes[a].edges@[j]).target == v
}

/// Where every unplaced node has an unplaced predecessor, no numbering makes
/// the edges rise: following predecessors would descend for ever.
proof fn lemma_descent(nodes: Seq<DagNode>, placed: Seq<bool>, rho: spec_fn(int) -> nat, v: int)
    requires
        placed.len() == nodes.len(),
        0 <= v < nodes.len(),
        !placed[v],
        forall|w: int| 0 <= w < nodes.len() && !placed[w] ==> #[trigger] blocked(nodes, placed, w),
    ensures
        !rising(nodes, rho),
    decreases rho(v),
{
    if rising(nodes, rho) {
        assert(blocked(nodes, placed, v));
        let (a, j) = choose|a: int, j: int|
            0 <= a < nodes.len() && !placed[a] && 0 <= j < nodes[a].edges@.len() && (
            #[trigger] nodes[a].edges@[j]).target == v;
        lemma_descent(nodes, placed, rho, a);
    }
}

/// For each node, whether it is blocked.
fn blocked_flags(nodes: &Vec<DagNode>, placed: &Vec<bool>) -> (r: Vec<bool>)
    requires
        closed_edges(nodes@),
        placed@.len() == nodes@.len(),
    ensures
        r@.len() == nodes@.len(),
        forall|v: int| 0 <= v < nodes@.len() ==> #[trigger] r@[v] == blocked(nodes@, placed@, v),
{
    let n = nodes.len();
    let mut flags: Vec<bool> = Vec::new();
    while flags.len() < n
        invariant
            flags@.len() <= n,
            forall|v: int| 0 <= v < flags@.len() ==> !#[trigger] flags@[v],
        decreases n - flags@.len(),
    {
        flags.push(false);
    }
    let mut a: usize = 0;
    while a < n
        invariant
            n == nodes@.len() == placed@.len(),
            closed_edges(nodes@),
            a <= n,
            flags@.len() == n,
            forall|v: int|
                0 <= v < n ==> #[trigger] flags@[v] == exists|a2: int, j: int|
                    0 <= a2 < a && !placed@[a2] && 0 <= j < nodes@[a2].edges@.len() && (
                    #[trigger] nodes@[a2].edges@[j]).target == v,
        decreases n - a,
    {
        if !placed[a] {
            let edges = &nodes[a].edges;
            let mut j: usize = 0;
            while j < edges.len()
                invariant
                    n == nodes@.len() == placed@.len(),
                    closed_edges(nodes@),
                    a < n,
                    !placed@[a as int],
                    edges@ == nodes@[a as int].edges@,
                    j <= edges@.len(),
                    flags@.len() == n,
                    forall|v: int|
                        0 <= v < n ==> #[trigger] flags@[v] == ((exists|a2: int, k: int|
                            0 <= a2 < a && !placed@[a2] && 0 <= k < nodes@[a2].edges@.len() && (
                            #[trigger] nodes@[a2].edges@[k]).target == v) || (exists|k: int|
                            0 <= k < j && (#[trigger] edges@[k]).target == v)),
                decreases edges@.len() - j,
            {
                let t = edges[j].target;
                assert(nodes@[a as int].edges@[j as int] == edges@[j as int]);
                flags.set(t, true);
                assert forall|v: int| 0 <= v < n implies #[trigger] flags@[v] == ((exists|
                    a2: int,
                    k: int,
                |
                    0 <= a2 < a && !placed@[a2] && 0 <= k < nodes@[a2].edges@.len() && (
                    #[trigger] nodes@[a2].edges@[k]).target == v) || (exists|k: int|
                    0 <= k < j + 1 && (#[trigger] edges@[k]).target == v)) by {
                    if v == t {
                        assert(edges@[j as int].target == v);
                    }
                }
                j = j + 1;
            }
            assert forall|v: int| 0 <= v < n implies #[trigger] flags@[v] == exists|a2: int, k: int|
                0 <= a2 < a + 1 && !placed@[a2] && 0 <= k < nodes@[a2].edges@.len() && (
                #[trigger] nodes@[a2].edges@[k]).target == v by {
                if exists|k: int| 0 <= k < j && (#[trigger] edges@[k]).target == v {
                    let k = choose|k: int| 0 <= k < j && (#[trigger] edges@[k]).target == v;
                    assert(nodes@[a as int].edges@[k] == edges@[k]);
                }
                if exists|a2: int, k: int|
                    0 <= a2 < a + 1 && !placed@[a2] && 0 <= k < nodes@[a2].edges@.len() && (
                    #[trigger] nodes@[a2].edges@[k]).target == v {
                    let (a2, k) = choose|a2: int, k: int|
                        0 <= a2 < a + 1 && !placed@[a2] && 0 <= k < nodes@[a2].edges@.len() && (
                        #[trigger] nodes@[a2].edges@[k]).target == v;
                    if a2 == a {
                        assert(edges@[k].target == v);
                    }
                }
            }
        } else {
            assert forall|v: int| 0 <= v < n implies #[trigger] flags@[v] == exists|a2: int, k: int|
                0 <= a2 < a + 1 && !placed@[a2] && 0 <= k < nodes@[a2].edges@.len() && (
                #[trigger] nodes@[a2].edges@[k]).target == v by {
                if exists|a2: int, k: int|
                    0 <= a2 < a + 1 && !placed@[a2] && 0 <= k < nodes@[a2].edges@.len() && (
                    #[trigger] nodes@[a2].edges@[k]).target == v {
                    let (a2, k) = choose|a2: int, k: int|
                        0 <= a2 < a + 1 && !placed@[a2] && 0 <= k < nodes@[a2].edges@.len() && (
                        #[trigger] nodes@[a2].edges@[k]).target == v;
                    assert(a2 != a);
                }
            }
        }
        a = a + 1;
    }
    flags
}

/// The first node that is neither placed nor blocked.
fn find_free(placed: &Vec<bool>, flags: &Vec<bool>) -> (r: Option<usize>)
    requires
        placed@.len() == flags@.len(),
    ensures
        match r {
            Some(v) => v < placed@.len() && !placed@[v as int] && !flags@[v as int],
            None => forall|v: int| 0 <= v < placed@.len() && !placed@[v] ==> flags@[v],
        },
{
    let mut v: usize = 0;
    while v < placed.len()
        invariant
            placed@.len() == flags@.len(),
            v <= placed@.len(),
            forall|w: int| 0 <= w < v && !placed@[w] ==> flags@[w],
        decreases placed@.len() - v,
    {
        if !placed[v] && !flags[v] {
            return Some(v);
        }
        v = v + 1;
    }
    None
}

/// The first node not yet placed.
fn find_unplaced(placed: &Vec<bool>) -> (r: Option<usize>)
    ensures
        match r {
            Some(v) => v < placed@.len() && !placed@[v as int],
            None => forall|v: int| 0 <= v < placed@.len() ==> placed@[v],
        },
{
    let mut v: usize = 0;
    while v < placed.len()
        invariant
            v <= placed@.len(),
            forall|w: int| 0 <= w < v ==> placed@[w],
        decreases placed@.len() - v,
    {
        if !placed[v] {
            return Some(v);
        }
        v = v + 1;
    }
    None
}

/// Ranks the nodes in topological order: each round places a node that no
/// unplaced node has an edge into. `None` where some round finds none, which
/// happens exactly where the edges form a cycle.
fn rank_nodes(nodes: &Vec<DagNode>) -> (r: Option<Vec<usize>>)
    requires
        closed_edges(nodes@),
    ensures
        match r {
            Some(rank) => ranked(nodes@, rank@),
            None => forall|rho: spec_fn(int) -> nat| !rising(nodes@, rho),
        },
{
    let n = nodes.len();
    let mut placed: Vec<bool> = Vec::new();
    let mut rank: Vec<usize> = Vec::new();
    while placed.len() < n
        invariant
            placed@.len() == rank@.len() <= n,
            forall|v: int| 0 <= v < placed@.len() ==> !#[trigger] placed@[v],
            forall|v: int| 0 <= v < rank@.len() ==> #[trigger] rank@[v] == 0,
        decreases n - placed@.len(),
    {
        placed.push(false);
        rank.push(0);
    }
    let mut count: usize = 0;
    let ghost mut pset: Set<int> = Set::empty();
    assert(pset =~= Set::new(|i: int| 0 <= i < n && placed@[i]));
    while count <= n
        invariant
            n == nodes@.len() == placed@.len() == rank@.len(),
            closed_edges(nodes@),
            pset == Set::new(|i: int| 0 <= i < n && placed@[i]),
            pset.finite(),
            count == pset.len(),
            count <= n,
            forall|v: int| 0 <= v < n ==> #[trigger] rank@[v] <= n,
            forall|v: int| 0 <= v < n && #[trigger] placed@[v] ==> rank@[v] < count,
            forall|a: int, j: int|
                0 <= a < n && 0 <= j < nodes@[a].edges@.len() && placed@[(
                #[trigger] nodes@[a].edges@[j]).target as int] ==> placed@[a] && rank@[a]
                    < rank@[nodes@[a].edges@[j].target as int],
        decreases n - count,
    {
        match find_unplaced(&placed) {
            None => {
                return Some(rank);
            },
            Some(w) => {
                let flags = blocked_flags(nodes, &placed);
                match find_free(&placed, &flags) {
                    None => {
                        assert forall|rho: spec_fn(int) -> nat| !rising(nodes@, rho) by {
                            lemma_descent(nodes@, placed@, rho, w as int);
                        }
                        return None;
                    },
                    Some(v) => {
                        assert(!blocked(nodes@, placed@, v as int));
                        let ghost old_placed = placed@;
                        placed.set(v, true);
                        rank.set(v, count);
                        proof {
                            let old_set = pset;
                            pset = pset.insert(v as int);
                            assert(pset =~= Set::new(|i: int| 0 <= i < n && placed@[i]));
                            assert(!old_set.contains(v as int));
                            vstd::set_lib::lemma_int_range(0, n as int);
                            vstd::set_lib::lemma_len_subset(
                                pset,
                                vstd::set_lib::set_int_range(0, n as int),
                            );
                            assert forall|a: int, j: int|
                                0 <= a < n && 0 <= j < nodes@[a].edges@.len() && placed@[(
                                #[trigger] nodes@[a].edges@[j]).target as int] implies placed@[a]
                                && rank@[a] < rank@[nodes@[a].edges@[j].target as int] by {
                                let t = nodes@[a].edges@[j].target as int;
                                if t == v {
                                    if !old_placed[a] {
                                        assert(blocked(nodes@, old_placed, v as int));
                                    }
                                } else if a == v {
                                    assert(old_placed[t]);
                                }
                            }
                        }
                        count = count + 1;
                    },
                }
            },
        }
    }
    None
}

/// Builds the graph of a document: each node with its edges, by index, and
/// the index of the root. Fails with `MalformedDocument` where two nodes
/// share an id, where there is no root or more than one, where an edge names
/// an unknown id, or where the edges form a cycle.
pub fn parse(dag_data: Vec<Node>) -> (r: Result<(Dag, usize), ExecError>)
    ensures
        match r {
            Ok((g, root)) => {
                &&& g.wf()
                &&& built_from(g, dag_data@)
                &&& unique_ids(dag_data@)
                &&& single_root(dag_data@, root as int)
                &&& targets_resolve(dag_data@)
            },
            Err(e) => e.kind == ErrorKind::MalformedDocument,
        },
        r is Ok <==> well_formed(dag_data@),
        (forall|i: int| !is_root(dag_data@, i)) ==> r is Err,
        (exists|i: int, k: int| i != k && is_root(dag_data@, i) && is_root(dag_data@, k)) ==> r is Err,
        !unique_ids(dag_data@) ==> r is Err,
        !targets_resolve(dag_data@) ==> r is Err,
{
    let (m, root) = match index_ids(&dag_data) {
        Ok(x) => x,
        Err(e) => return Err(e),
    };
    let n = dag_data.len();
    let mut nodes: Vec<DagNode> = Vec::new();
    let mut i: usize = 0;
    while i < n
        invariant
            n == dag_data@.len(),
            i <= n,
            nodes@.len() == i,
            forall|id: u32| #[trigger] m@.contains_key(id) == has_id(dag_data@, id),
            forall|id: u32|
                #[trigger] m@.contains_key(id) ==> m@[id] < n && dag_data@[m@[id] as int].id == id,
            forall|k: int|
                #![trigger nodes@[k]]
                0 <= k < i ==> {
                    &&& nodes@[k].id == dag_data@[k].id
                    &&& nodes@[k].zap_type == dag_data@[k].zap_type
                    &&& nodes@[k].data == dag_data@[k].data
                    &&& nodes@[k].edges@.len() == children_of(dag_data@[k]).len()
                },
            forall|k: int, j: int|
                0 <= k < i && 0 <= j < children_of(dag_data@[k]).len() ==> {
                    let e = #[trigger] nodes@[k].edges@[j];
                    &&& e.target < n
                    &&& dag_data@[e.target as int].id == children_of(dag_data@[k])[j].id
                    &&& e.condition == children_of(dag_data@[k])[j].condition
                },
        decreases n - i,
    {
        let node = &dag_data[i];
        let edges = match resolve_edges(node, &m, n) {
            Ok(es) => es,
            Err(e) => {
                proof {
                    let j = choose|j: int|
                        0 <= j < children_of(*node).len() && !m@.contains_key(
                            #[trigger] children_of(*node)[j].id,
                        );
                    assert(!has_id(dag_data@, children_of(dag_data@[i as int])[j].id));
                }
                return Err(e);
            },
        };
        nodes.push(
            DagNode {
                id: node.id,
                zap_type: node.zap_type,
                data: copy_data(&node.data),
                edges,
            },
        );
        proof {
            assert forall|k: int, j: int|
                0 <= k < i + 1 && 0 <= j < children_of(dag_data@[k]).len() implies {
                let e = #[trigger] nodes@[k].edges@[j];
                &&& e.target < n
                &&& dag_data@[e.target as int].id == children_of(dag_data@[k])[j].id
                &&& e.condition == children_of(dag_data@[k])[j].condition
            } by {
                if k == i {
                    assert(nodes@[k].edges@[j] == edges@[j]);
                }
            }
        }
        i = i + 1;
    }
    proof {
        assert forall|u: int, j: int|
            0 <= u < nodes@.len() && 0 <= j < nodes@[u].edges@.len() implies (
            #[trigger] nodes@[u].edges@[j]).target < nodes@.len() by {
            assert(nodes@[u].edges@.len() == children_of(dag_data@[u]).len());
        }
        assert forall|a: int, j: int|
            0 <= a < dag_data@.len() && 0 <= j < children_of(dag_data@[a]).len() implies has_id(
            dag_data@,
            #[trigger] children_of(dag_data@[a])[j].id,
        ) by {
            assert(nodes@[a].edges@.len() == children_of(dag_data@[a]).len());
            let t = nodes@[a].edges@[j].target as int;
            assert(dag_data@[t].id == children_of(dag_data@[a])[j].id);
        }
    }
    let rank = match rank_nodes(&nodes) {
        Some(rank) => rank,
        None => {
            proof {
                assert forall|rho: spec_fn(int) -> nat| !rises(dag_data@, rho) by {
                    if rises(dag_data@, rho) {
                        assert forall|u: int, j: int|
                            0 <= u < nodes@.len() && 0 <= j < nodes@[u].edges@.len() implies rho(u)
                            < rho((#[trigger] nodes@[u].edges@[j]).target as int) by {
                            assert(nodes@[u].edges@.len() == children_of(dag_data@[u]).len());
                            let t = nodes@[u].edges@[j].target as int;
                            assert(dag_data@[t].id == children_of(dag_data@[u])[j].id);
                        }
                        assert(rising(nodes@, rho));
                    }
                }
            }
            return Err(malformed(None));
        },
    };
    proof {
        let rho = |i: int| rank@[i] as nat;
        assert forall|i: int, j: int, k: int|
            #![trigger children_of(dag_data@[i])[j], dag_data@[k]]
            0 <= i < dag_data@.len() && 0 <= j < children_of(dag_data@[i]).len() && 0 <= k
                < dag_data@.len() && dag_data@[k].id == children_of(dag_data@[i])[j].id implies rho(
            i,
        ) < rho(k) by {
            assert(nodes@[i].edges@.len() == children_of(dag_data@[i]).len());
            let t = nodes@[i].edges@[j].target as int;
            assert(dag_data@[t].id == children_of(dag_data@[i])[j].id);
            if k != t {
                if k < t {
                    assert(dag_data@[k].id != dag_data@[t].id);
                } else {
                    assert(dag_data@[t].id != dag_data@[k].id);
                }
            }
        }
        assert(rises(dag_data@, rho));
        assert(single_root(dag_data@, root as int));
    }
    let g = Dag { nodes, rank };
    Ok((g, root))
}

} // verus!
