//! A graph of code: what calls, holds and changes what.

use crate::json::{
    json_text, law_members_are_found_by_key, list_models, push_entry, push_value, Json, JsonModel,
};
use crate::keyed::key_place;
use crate::metadata::{EntryModel, Metadata};
use crate::numeral::{decimal, decimal_text};
use crate::text::{holds_text, is_one_of, lemma_texts_push, same_text, str_views, texts};
use vstd::prelude::*;
use vstd::string::*;

verus! {

broadcast use lemma_texts_push;

// ── Nodes and edges ────────────────────────────────────────────────────────
/// What a node stands for.
#[derive(Debug, Clone, Copy, PartialEq, Eq, Structural)]
pub enum GraphNodeType {
    Function,
    Class,
    Module,
    Variable,
    Import,
    Interface,
    Trait,
    Struct,
}

impl GraphNodeType {
    /// The type's name.
    pub open spec fn words(self) -> Seq<char> {
        match self {
            GraphNodeType::Function => "Function"@,
            GraphNodeType::Class => "Class"@,
            GraphNodeType::Module => "Module"@,
            GraphNodeType::Variable => "Variable"@,
            GraphNodeType::Import => "Import"@,
            GraphNodeType::Interface => "Interface"@,
            GraphNodeType::Trait => "Trait"@,
            GraphNodeType::Struct => "Struct"@,
        }
    }

    /// The type's name.
    pub fn text(&self) -> (r: &'static str)
        ensures
            r@ == self.words(),
    {
        match self {
            GraphNodeType::Function => "Function",
            GraphNodeType::Class => "Class",
            GraphNodeType::Module => "Module",
            GraphNodeType::Variable => "Variable",
            GraphNodeType::Import => "Import",
            GraphNodeType::Interface => "Interface",
            GraphNodeType::Trait => "Trait",
            GraphNodeType::Struct => "Struct",
        }
    }
}

/// What an edge stands for.
#[derive(Debug, Clone, Copy, PartialEq, Eq, Structural)]
pub enum GraphEdgeType {
    Calls,
    InheritsFrom,
    Implements,
    Imports,
    Modifies,
    References,
    Returns,
}

impl GraphEdgeType {
    /// The type's name.
    pub open spec fn words(self) -> Seq<char> {
        match self {
            GraphEdgeType::Calls => "Calls"@,
            GraphEdgeType::InheritsFrom => "InheritsFrom"@,
            GraphEdgeType::Implements => "Implements"@,
            GraphEdgeType::Imports => "Imports"@,
            GraphEdgeType::Modifies => "Modifies"@,
            GraphEdgeType::References => "References"@,
            GraphEdgeType::Returns => "Returns"@,
        }
    }

    /// The type's name.
    pub fn text(&self) -> (r: &'static str)
        ensures
            r@ == self.words(),
    {
        match self {
            GraphEdgeType::Calls => "Calls",
            GraphEdgeType::InheritsFrom => "InheritsFrom",
            GraphEdgeType::Implements => "Implements",
            GraphEdgeType::Imports => "Imports",
            GraphEdgeType::Modifies => "Modifies",
            GraphEdgeType::References => "References",
            GraphEdgeType::Returns => "Returns",
        }
    }
}

/// A piece of code.
#[derive(Debug)]
pub struct GraphNode {
    pub id: String,
    pub label: String,
    pub node_type: GraphNodeType,
    pub file: String,
    pub line: usize,
    pub metadata: Metadata,
}

/// A piece of code.
pub struct NodeModel {
    pub id: Seq<char>,
    pub label: Seq<char>,
    pub node_type: GraphNodeType,
    pub file: Seq<char>,
    pub line: nat,
    pub metadata: Seq<EntryModel>,
}

impl View for GraphNode {
    type V = NodeModel;

    open spec fn view(&self) -> NodeModel {
        NodeModel {
            id: self.id@,
            label: self.label@,
            node_type: self.node_type,
            file: self.file@,
            line: self.line as nat,
            metadata: self.metadata@,
        }
    }
}

impl Clone for GraphNode {
    fn clone(&self) -> (r: GraphNode)
        ensures
            r@ == self@,
    {
        GraphNode {
            id: self.id.clone(),
            label: self.label.clone(),
            node_type: self.node_type,
            file: self.file.clone(),
            line: self.line,
            metadata: self.metadata.clone(),
        }
    }
}

/// How one piece of code depends on another. `weight` is a JSON number.
#[derive(Debug)]
pub struct GraphEdge {
    pub source: String,
    pub target: String,
    pub edge_type: GraphEdgeType,
    pub weight: String,
}

/// How one piece of code depends on another.
pub struct EdgeModel {
    pub source: Seq<char>,
    pub target: Seq<char>,
    pub edge_type: GraphEdgeType,
    pub weight: Seq<char>,
}

impl View for GraphEdge {
    type V = EdgeModel;

    open spec fn view(&self) -> EdgeModel {
        EdgeModel {
            source: self.source@,
            target: self.target@,
            edge_type: self.edge_type,
            weight: self.weight@,
        }
    }
}

impl Clone for GraphEdge {
    fn clone(&self) -> (r: GraphEdge)
        ensures
            r == *self,
    {
        GraphEdge {
            source: self.source.clone(),
            target: self.target.clone(),
            edge_type: self.edge_type,
            weight: self.weight.clone(),
        }
    }
}

/// The nodes.
pub open spec fn node_models(v: Seq<GraphNode>) -> Seq<NodeModel> {
    v.map_values(|n: GraphNode| n@)
}

/// The nodes.
pub open spec fn node_ref_models(v: Seq<&GraphNode>) -> Seq<NodeModel> {
    v.map_values(|n: &GraphNode| n@)
}

/// The edges.
pub open spec fn edge_models(v: Seq<GraphEdge>) -> Seq<EdgeModel> {
    v.map_values(|e: GraphEdge| e@)
}

/// The ids of nodes.
pub open spec fn node_ids(nodes: Seq<NodeModel>) -> Seq<Seq<char>> {
    nodes.map_values(|n: NodeModel| n.id)
}

// ── Reach ──────────────────────────────────────────────────────────────────
/// An edge leads from `a` to `b`.
pub open spec fn has_edge(edges: Seq<EdgeModel>, a: Seq<char>, b: Seq<char>) -> bool {
    exists|k: int|
        0 <= k < edges.len() && (#[trigger] edges[k]).source == a && edges[k].target == b
}

/// An edge leads from each id to the next.
pub open spec fn is_path(edges: Seq<EdgeModel>, p: Seq<Seq<char>>) -> bool {
    forall|i: int| 0 <= i < p.len() - 1 ==> has_edge(edges, #[trigger] p[i], p[i + 1])
}

/// Edges lead from `a` to `b`, over any number of others.
pub open spec fn reaches(edges: Seq<EdgeModel>, a: Seq<char>, b: Seq<char>) -> bool {
    exists|p: Seq<Seq<char>>|
        p.len() > 0 && p[0] == a && p.last() == b && #[trigger] is_path(edges, p)
}

/// Every id reaches itself, and what it reaches reaches is reached.
pub proof fn law_reach_follows_edges(
    edges: Seq<EdgeModel>,
    a: Seq<char>,
    b: Seq<char>,
    c: Seq<char>,
)
    ensures
        reaches(edges, a, a),
        reaches(edges, a, b) && has_edge(edges, b, c) ==> reaches(edges, a, c),
{
    let one = seq![a];
    assert(is_path(edges, one) && one[0] == a && one.last() == a);
    if reaches(edges, a, b) && has_edge(edges, b, c) {
        let p = choose|p: Seq<Seq<char>>|
            p.len() > 0 && p[0] == a && p.last() == b && #[trigger] is_path(edges, p);
        let q = p.push(c);
        assert forall|i: int| 0 <= i < q.len() - 1 implies has_edge(
            edges,
            #[trigger] q[i],
            q[i + 1],
        ) by {
            if i < p.len() - 1 {
                assert(has_edge(edges, p[i], p[i + 1]));
                assert(q[i] == p[i] && q[i + 1] == p[i + 1]);
            } else {
                assert(q[i] == b && q[i + 1] == c);
            }
        }
        assert(is_path(edges, q) && q[0] == a && q.last() == c);
    }
}

/// A set of ids that holds where a path starts, and all that edges lead to from
/// it, holds where the path ends.
proof fn lemma_closed_holds_path(
    edges: Seq<EdgeModel>,
    ids: Seq<Seq<char>>,
    p: Seq<Seq<char>>,
    n: int,
)
    requires
        is_path(edges, p),
        0 <= n < p.len(),
        ids.contains(p[0]),
        forall|k: int|
            0 <= k < edges.len() && ids.contains((#[trigger] edges[k]).source) ==> ids.contains(
                edges[k].target,
            ),
    ensures
        ids.contains(p[n]),
    decreases n,
{
    if n > 0 {
        lemma_closed_holds_path(edges, ids, p, n - 1);
        assert(has_edge(edges, p[n - 1], p[n - 1 + 1]));
        let k = choose|k: int|
            0 <= k < edges.len() && (#[trigger] edges[k]).source == p[n - 1] && edges[k].target
                == p[n];
        assert(ids.contains(edges[k].source));
    }
}

/// Different ids that are all among others are no more than those.
proof fn lemma_no_more_than(ids: Seq<Seq<char>>, all: Seq<Seq<char>>)
    requires
        ids.no_duplicates(),
        forall|i: int| 0 <= i < ids.len() ==> all.contains(#[trigger] ids[i]),
    ensures
        ids.len() <= all.len(),
{
    ids.unique_seq_to_set();
    all.lemma_cardinality_of_set();
    vstd::seq_lib::seq_to_set_is_finite(all);
    vstd::seq_lib::seq_to_set_is_finite(ids);
    assert forall|x: Seq<char>| ids.to_set().contains(x) implies all.to_set().contains(x) by {
        let i = choose|i: int| 0 <= i < ids.len() && ids[i] == x;
        assert(all.contains(ids[i]));
    }
    vstd::set_lib::lemma_len_subset(ids.to_set(), all.to_set());
}

/// The targets of edges.
pub open spec fn targets(edges: Seq<EdgeModel>) -> Seq<Seq<char>> {
    edges.map_values(|e: EdgeModel| e.target)
}

/// The nodes that `start` reaches, but for itself.
pub open spec fn reached_nodes(
    nodes: Seq<NodeModel>,
    edges: Seq<EdgeModel>,
    start: Seq<char>,
) -> Seq<NodeModel>
    decreases nodes.len(),
{
    if nodes.len() == 0 {
        Seq::empty()
    } else {
        let rest = reached_nodes(nodes.drop_last(), edges, start);
        if nodes.last().id != start && reaches(edges, start, nodes.last().id) {
            rest.push(nodes.last())
        } else {
            rest
        }
    }
}

/// The nodes that an edge from `start` leads to.
pub open spec fn neighbor_nodes(
    nodes: Seq<NodeModel>,
    edges: Seq<EdgeModel>,
    start: Seq<char>,
) -> Seq<NodeModel>
    decreases nodes.len(),
{
    if nodes.len() == 0 {
        Seq::empty()
    } else {
        let rest = neighbor_nodes(nodes.drop_last(), edges, start);
        if has_edge(edges, start, nodes.last().id) {
            rest.push(nodes.last())
        } else {
            rest
        }
    }
}

/// The nodes with one of the ids.
pub open spec fn nodes_among(nodes: Seq<NodeModel>, ids: Seq<Seq<char>>) -> Seq<NodeModel>
    decreases nodes.len(),
{
    if nodes.len() == 0 {
        Seq::empty()
    } else if ids.contains(nodes.last().id) {
        nodes_among(nodes.drop_last(), ids).push(nodes.last())
    } else {
        nodes_among(nodes.drop_last(), ids)
    }
}

/// The edges between the ids.
pub open spec fn edges_among(edges: Seq<EdgeModel>, ids: Seq<Seq<char>>) -> Seq<EdgeModel>
    decreases edges.len(),
{
    if edges.len() == 0 {
        Seq::empty()
    } else if ids.contains(edges.last().source) && ids.contains(edges.last().target) {
        edges_among(edges.drop_last(), ids).push(edges.last())
    } else {
        edges_among(edges.drop_last(), ids)
    }
}

// ── Components ─────────────────────────────────────────────────────────────
/// The first `k` edges connect the nodes at `i` and `j`, whichever way they
/// lead. An edge stands for the first nodes with its ids, and for nothing if
/// one of them is missing.
pub open spec fn connected(
    ids: Seq<Seq<char>>,
    edges: Seq<EdgeModel>,
    k: nat,
    i: int,
    j: int,
) -> bool
    decreases k,
{
    if k == 0 {
        i == j
    } else {
        let a = key_place(ids, edges[k - 1].source);
        let b = key_place(ids, edges[k - 1].target);
        let m = (k - 1) as nat;
        ||| connected(ids, edges, m, i, j)
        ||| a < ids.len() && b < ids.len() && connected(ids, edges, m, i, a) && connected(
            ids,
            edges,
            m,
            b,
            j,
        )
        ||| a < ids.len() && b < ids.len() && connected(ids, edges, m, i, b) && connected(
            ids,
            edges,
            m,
            a,
            j,
        )
    }
}

/// To be connected is an equivalence, and an edge connects its ends.
pub proof fn law_connection_is_an_equivalence(
    ids: Seq<Seq<char>>,
    edges: Seq<EdgeModel>,
    k: nat,
    i: int,
    j: int,
    l: int,
)
    ensures
        connected(ids, edges, k, i, i),
        connected(ids, edges, k, i, j) ==> connected(ids, edges, k, j, i),
        connected(ids, edges, k, i, j) && connected(ids, edges, k, j, l) ==> connected(
            ids,
            edges,
            k,
            i,
            l,
        ),
    decreases k,
{
    if k > 0 {
        let m = (k - 1) as nat;
        let a = key_place(ids, edges[k - 1].source);
        let b = key_place(ids, edges[k - 1].target);
        law_connection_is_an_equivalence(ids, edges, m, i, j, l);
        law_connection_is_an_equivalence(ids, edges, m, i, j, a);
        law_connection_is_an_equivalence(ids, edges, m, i, j, b);
        law_connection_is_an_equivalence(ids, edges, m, b, j, l);
        law_connection_is_an_equivalence(ids, edges, m, a, j, l);
        law_connection_is_an_equivalence(ids, edges, m, i, a, l);
        law_connection_is_an_equivalence(ids, edges, m, i, b, l);
    }
}

/// Nothing is connected but by edges: any equivalence that connects the ends of
/// each edge connects what the edges connect.
pub proof fn law_only_edges_connect(
    ids: Seq<Seq<char>>,
    edges: Seq<EdgeModel>,
    k: nat,
    same: spec_fn(int, int) -> bool,
    i: int,
    j: int,
)
    requires
        k <= edges.len(),
        forall|x: int| #[trigger] same(x, x),
        forall|x: int, y: int| #[trigger] same(x, y) ==> same(y, x),
        forall|x: int, y: int, z: int|
            #[trigger] same(x, y) && #[trigger] same(y, z) ==> same(x, z),
        forall|e: int|
            0 <= e < edges.len() && key_place(ids, (#[trigger] edges[e]).source) < ids.len()
                && key_place(ids, edges[e].target) < ids.len() ==> same(
                key_place(ids, edges[e].source),
                key_place(ids, edges[e].target),
            ),
        connected(ids, edges, k, i, j),
    ensures
        same(i, j),
    decreases k,
{
    if k > 0 {
        let m = (k - 1) as nat;
        let a = key_place(ids, edges[k - 1].source);
        let b = key_place(ids, edges[k - 1].target);
        if connected(ids, edges, m, i, j) {
            law_only_edges_connect(ids, edges, m, same, i, j);
        } else if connected(ids, edges, m, i, a) && connected(ids, edges, m, b, j) {
            law_only_edges_connect(ids, edges, m, same, i, a);
            law_only_edges_connect(ids, edges, m, same, b, j);
            assert(same(a, b));
            assert(same(i, b));
        } else {
            law_only_edges_connect(ids, edges, m, same, i, b);
            law_only_edges_connect(ids, edges, m, same, a, j);
            assert(same(a, b));
            assert(same(b, a));
            assert(same(i, a));
        }
    } else {
        assert(same(i, i));
    }
}

/// The node at `i` is the first of its component.
pub open spec fn is_first(ids: Seq<Seq<char>>, edges: Seq<EdgeModel>, i: int) -> bool {
    forall|j: int| 0 <= j < i ==> !(#[trigger] connected(ids, edges, edges.len(), i, j))
}

/// How many of the first `n` nodes are the first of their component.
pub open spec fn component_count(ids: Seq<Seq<char>>, edges: Seq<EdgeModel>, n: nat) -> nat
    decreases n,
{
    if n == 0 {
        0
    } else {
        component_count(ids, edges, (n - 1) as nat) + (if is_first(ids, edges, n - 1) {
            1nat
        } else {
            0nat
        })
    }
}

/// How big a graph is.
#[derive(Debug, Clone, Copy, PartialEq, Eq, Structural)]
pub struct GraphStats {
    pub node_count: usize,
    pub edge_count: usize,
    pub components: usize,
}

/// A graph of code.
#[derive(Debug)]
pub struct CodePropertyGraph {
    pub nodes: Vec<GraphNode>,
    pub edges: Vec<GraphEdge>,
}

/// The labels tell which nodes are connected: each is the first node of a
/// component.
spec fn labelled(
    ids: Seq<Seq<char>>,
    edges: Seq<EdgeModel>,
    k: nat,
    labels: Seq<usize>,
) -> bool {
    &&& labels.len() == ids.len()
    &&& forall|i: int| 0 <= i < labels.len() ==> (#[trigger] labels[i]) <= i
    &&& forall|i: int|
        0 <= i < labels.len() ==> labels[(#[trigger] labels[i]) as int] == labels[i]
    &&& forall|i: int, j: int|
        0 <= i < labels.len() && 0 <= j < labels.len() ==> (#[trigger] labels[i]
            == #[trigger] labels[j] <==> connected(ids, edges, k, i, j))
}

proof fn lemma_merged(
    ids: Seq<Seq<char>>,
    edges: Seq<EdgeModel>,
    k: nat,
    labels: Seq<usize>,
    next: Seq<usize>,
    a: int,
    b: int,
    low: usize,
    high: usize,
)
    requires
        k < edges.len(),
        labelled(ids, edges, k, labels),
        a == key_place(ids, edges[k as int].source),
        b == key_place(ids, edges[k as int].target),
        0 <= a < ids.len(),
        0 <= b < ids.len(),
        low <= high,
        labels[a] == low && labels[b] == high || labels[a] == high && labels[b] == low,
        next.len() == labels.len(),
        forall|i: int|
            0 <= i < labels.len() ==> #[trigger] next[i] == (if labels[i] == high {
                low
            } else {
                labels[i]
            }),
    ensures
        labelled(ids, edges, k + 1, next),
{
    assert forall|i: int, j: int| 0 <= i < next.len() && 0 <= j < next.len() implies (
    #[trigger] next[i] == #[trigger] next[j] <==> connected(ids, edges, k + 1, i, j)) by {
        assert(labels[i] == labels[j] <==> connected(ids, edges, k, i, j));
        assert(labels[i] == labels[a] <==> connected(ids, edges, k, i, a));
        assert(labels[b] == labels[j] <==> connected(ids, edges, k, b, j));
        assert(labels[i] == labels[b] <==> connected(ids, edges, k, i, b));
        assert(labels[a] == labels[j] <==> connected(ids, edges, k, a, j));
    }
    assert forall|i: int| 0 <= i < next.len() implies (#[trigger] next[i]) <= i by {
        assert(labels[i] <= i);
    }
    assert forall|i: int| 0 <= i < next.len() implies next[(#[trigger] next[i]) as int]
        == next[i] by {
        assert(labels[labels[i] as int] == labels[i]);
        assert(labels[labels[a] as int] == labels[a]);
        assert(labels[labels[b] as int] == labels[b]);
        assert(labels[i] <= i);
        assert(labels[a] <= a);
        assert(labels[b] <= b);
        let l = labels[i] as int;
        let m = low as int;
        assert(next[l] == (if labels[l] == high {
            low
        } else {
            labels[l]
        }));
        assert(next[m] == (if labels[m] == high {
            low
        } else {
            labels[m]
        }));
    }
}

proof fn lemma_same_labels(
    ids: Seq<Seq<char>>,
    edges: Seq<EdgeModel>,
    k: nat,
    labels: Seq<usize>,
)
    requires
        k < edges.len(),
        labelled(ids, edges, k, labels),
        key_place(ids, edges[k as int].source) >= ids.len() || key_place(
            ids,
            edges[k as int].target,
        ) >= ids.len(),
    ensures
        labelled(ids, edges, k + 1, labels),
{
    assert forall|i: int, j: int| 0 <= i < labels.len() && 0 <= j < labels.len() implies (
    #[trigger] labels[i] == #[trigger] labels[j] <==> connected(ids, edges, k + 1, i, j)) by {
        assert(labels[i] == labels[j] <==> connected(ids, edges, k, i, j));
    }
}

// ── JSON ───────────────────────────────────────────────────────────────────
/// A node as a picture shows it.
pub open spec fn node_json(n: NodeModel) -> JsonModel {
    JsonModel::Object(
        seq![
            (
                "data"@,
                JsonModel::Object(
                    seq![
                        ("file"@, JsonModel::Text(n.file)),
                        ("id"@, JsonModel::Text(n.id)),
                        ("label"@, JsonModel::Text(n.label)),
                        ("line"@, JsonModel::Number(decimal(n.line))),
                        ("type"@, JsonModel::Text(n.node_type.words())),
                    ],
                ),
            ),
            ("group"@, JsonModel::Text("nodes"@)),
        ],
    )
}

/// An edge as a picture shows it.
pub open spec fn edge_json(e: EdgeModel) -> JsonModel {
    JsonModel::Object(
        seq![
            (
                "data"@,
                JsonModel::Object(
                    seq![
                        ("source"@, JsonModel::Text(e.source)),
                        ("target"@, JsonModel::Text(e.target)),
                        ("type"@, JsonModel::Text(e.edge_type.words())),
                        ("weight"@, JsonModel::Number(e.weight)),
                    ],
                ),
            ),
            ("group"@, JsonModel::Text("edges"@)),
        ],
    )
}

/// A graph as a picture shows it: its nodes, and then its edges.
pub open spec fn graph_json(nodes: Seq<NodeModel>, edges: Seq<EdgeModel>) -> JsonModel {
    JsonModel::Object(
        seq![
            (
                "elements"@,
                JsonModel::List(
                    nodes.map_values(|n: NodeModel| node_json(n)) + edges.map_values(
                        |e: EdgeModel| edge_json(e),
                    ),
                ),
            ),
        ],
    )
}

fn write_node(n: &GraphNode) -> (r: Json)
    ensures
        r@ == node_json(n@),
{
    let mut data: Vec<(String, Json)> = Vec::new();
    push_entry(&mut data, "file", json_text(n.file.as_str()));
    push_entry(&mut data, "id", json_text(n.id.as_str()));
    push_entry(&mut data, "label", json_text(n.label.as_str()));
    push_entry(&mut data, "line", Json::Number(decimal_text(n.line as u64)));
    push_entry(&mut data, "type", json_text(n.node_type.text()));
    let mut v: Vec<(String, Json)> = Vec::new();
    push_entry(&mut v, "data", Json::Object(data));
    push_entry(&mut v, "group", json_text("nodes"));
    let r = Json::Object(v);
    assert(r@->Object_0[0].1->Object_0 =~= node_json(n@)->Object_0[0].1->Object_0);
    assert(r@->Object_0 =~= node_json(n@)->Object_0);
    r
}

fn write_edge(e: &GraphEdge) -> (r: Json)
    ensures
        r@ == edge_json(e@),
{
    let mut data: Vec<(String, Json)> = Vec::new();
    push_entry(&mut data, "source", json_text(e.source.as_str()));
    push_entry(&mut data, "target", json_text(e.target.as_str()));
    push_entry(&mut data, "type", json_text(e.edge_type.text()));
    push_entry(&mut data, "weight", Json::Number(e.weight.clone()));
    let mut v: Vec<(String, Json)> = Vec::new();
    push_entry(&mut v, "data", Json::Object(data));
    push_entry(&mut v, "group", json_text("edges"));
    let r = Json::Object(v);
    assert(r@->Object_0[0].1->Object_0 =~= edge_json(e@)->Object_0[0].1->Object_0);
    assert(r@->Object_0 =~= edge_json(e@)->Object_0);
    r
}

impl CodePropertyGraph {
    /// Nothing.
    pub fn new() -> (r: CodePropertyGraph)
        ensures
            r.nodes@.len() == 0,
            r.edges@.len() == 0,
    {
        CodePropertyGraph { nodes: Vec::new(), edges: Vec::new() }
    }

    /// Adds a node.
    pub fn add_node(&mut self, node: GraphNode)
        ensures
            final(self).nodes@ == old(self).nodes@.push(node),
            final(self).edges == old(self).edges,
    {
        self.nodes.push(node);
    }

    /// Adds an edge.
    pub fn add_edge(&mut self, edge: GraphEdge)
        ensures
            final(self).nodes == old(self).nodes,
            final(self).edges@ == old(self).edges@.push(edge),
    {
        self.edges.push(edge);
    }

    fn leads(&self, a: &str, b: &str) -> (r: bool)
        ensures
            r == has_edge(edge_models(self.edges@), a@, b@),
    {
        let ghost es = edge_models(self.edges@);
        let mut k: usize = 0;
        while k < self.edges.len()
            invariant
                k <= self.edges@.len(),
                es == edge_models(self.edges@),
                forall|j: int|
                    0 <= j < k ==> !((#[trigger] es[j]).source == a@ && es[j].target == b@),
            decreases self.edges@.len() - k,
        {
            assert(es[k as int] == self.edges@[k as int]@);
            if same_text(self.edges[k].source.as_str(), a) && same_text(
                self.edges[k].target.as_str(),
                b,
            ) {
                return true;
            }
            k += 1;
        }
        false
    }

    /// The nodes that an edge from `node_id` leads to.
    pub fn neighbors(&self, node_id: &str) -> (r: Vec<&GraphNode>)
        ensures
            node_ref_models(r@) == neighbor_nodes(
                node_models(self.nodes@),
                edge_models(self.edges@),
                node_id@,
            ),
    {
        let ghost ns = node_models(self.nodes@);
        let ghost es = edge_models(self.edges@);
        let mut out: Vec<&GraphNode> = Vec::new();
        let mut i: usize = 0;
        assert(node_ref_models(out@) =~= neighbor_nodes(ns.take(0), es, node_id@));
        while i < self.nodes.len()
            invariant
                i <= self.nodes@.len(),
                ns == node_models(self.nodes@),
                es == edge_models(self.edges@),
                node_ref_models(out@) == neighbor_nodes(ns.take(i as int), es, node_id@),
            decreases self.nodes@.len() - i,
        {
            let ghost before = node_ref_models(out@);
            proof {
                assert(ns.take(i + 1).drop_last() =~= ns.take(i as int));
                assert(ns.take(i + 1).last() == self.nodes@[i as int]@);
            }
            if self.leads(node_id, self.nodes[i].id.as_str()) {
                out.push(&self.nodes[i]);
                assert(node_ref_models(out@) =~= before.push(ns[i as int]));
            }
            i += 1;
        }
        assert(ns.take(i as int) =~= ns);
        out
    }

    /// The ids that `start` reaches.
    fn reach(&self, start: &str) -> (r: Vec<String>)
        ensures
            forall|x: Seq<char>|
                texts(r@).contains(x) <==> #[trigger] reaches(
                    edge_models(self.edges@),
                    start@,
                    x,
                ),
    {
        let ghost es = edge_models(self.edges@);
        let ghost known = seq![start@] + targets(es);
        let mut visited: Vec<String> = Vec::new();
        let mut queue: Vec<String> = Vec::new();
        queue.push(start.to_owned());
        proof {
            law_reach_follows_edges(es, start@, start@, start@);
            assert(texts(queue@) =~= seq![start@]);
            assert(texts(queue@)[0] == start@);
            assert(known[0] == start@);
        }
        while queue.len() > 0
            invariant
                es == edge_models(self.edges@),
                es.len() == self.edges@.len(),
                known == seq![start@] + targets(es),
                known.len() == es.len() + 1,
                texts(visited@).no_duplicates(),
                texts(visited@).contains(start@) || texts(queue@).contains(start@),
                forall|i: int|
                    0 <= i < visited@.len() ==> known.contains(#[trigger] texts(visited@)[i])
                        && reaches(es, start@, texts(visited@)[i]),
                forall|i: int|
                    0 <= i < queue@.len() ==> known.contains(#[trigger] texts(queue@)[i])
                        && reaches(es, start@, texts(queue@)[i]),
                forall|k: int|
                    0 <= k < es.len() && texts(visited@).contains((#[trigger] es[k]).source)
                        ==> texts(visited@).contains(es[k].target) || texts(queue@).contains(
                        es[k].target,
                    ),
                visited@.len() <= es.len() + 1,
            decreases es.len() + 1 - visited@.len(), queue@.len(),
        {
            let ghost q0 = texts(queue@);
            let ghost v0 = texts(visited@);
            let current = queue.pop().unwrap();
            let ghost c = current@;
            proof {
                assert(c == q0[q0.len() - 1]);
                assert(texts(queue@) =~= q0.drop_last());
                assert forall|x: Seq<char>| q0.contains(x) implies x == c || texts(
                    queue@,
                ).contains(x) by {
                    let i = choose|i: int| 0 <= i < q0.len() && q0[i] == x;
                    if i < q0.len() - 1 {
                        assert(texts(queue@)[i] == x);
                    }
                }
                assert forall|i: int| 0 <= i < queue@.len() implies known.contains(
                    #[trigger] texts(queue@)[i],
                ) && reaches(es, start@, texts(queue@)[i]) by {
                    assert(texts(queue@)[i] == q0[i]);
                }
            }
            if holds_text(visited.as_slice(), current.as_str()) {
                continue;
            }
            visited.push(current.clone());
            let ghost v1 = texts(visited@);
            proof {
                assert(v1 =~= v0.push(c));
                assert(known.contains(c));
                assert forall|i: int| 0 <= i < v1.len() implies known.contains(#[trigger] v1[i])
                    && reaches(es, start@, v1[i]) by {
                    if i < v0.len() {
                        assert(v1[i] == v0[i]);
                    }
                }
                assert forall|x: Seq<char>| v0.contains(x) implies v1.contains(x) by {
                    let i = choose|i: int| 0 <= i < v0.len() && v0[i] == x;
                    assert(v1[i] == x);
                }
                assert(v1[v0.len() as int] == c);
                lemma_no_more_than(v1, known);
                assert forall|k: int|
                    0 <= k < es.len() && v1.contains((#[trigger] es[k]).source) && es[k].source
                        != c implies v1.contains(es[k].target) || texts(queue@).contains(
                    es[k].target,
                ) by {
                    let i = choose|i: int| 0 <= i < v1.len() && v1[i] == es[k].source;
                    assert(v0[i] == es[k].source);
                    assert(v0.contains(es[k].source));
                }
            }
            let mut n: usize = 0;
            while n < self.edges.len()
                invariant
                    n <= self.edges@.len(),
                    es == edge_models(self.edges@),
                    es.len() == self.edges@.len(),
                    known == seq![start@] + targets(es),
                    known.len() == es.len() + 1,
                    v1 == texts(visited@),
                    current@ == c,
                    reaches(es, start@, c),
                    v1.contains(start@) || texts(queue@).contains(start@),
                    forall|i: int|
                        0 <= i < queue@.len() ==> known.contains(#[trigger] texts(queue@)[i])
                            && reaches(es, start@, texts(queue@)[i]),
                    forall|k: int|
                        0 <= k < es.len() && v1.contains((#[trigger] es[k]).source) && (
                        es[k].source != c || k < n) ==> v1.contains(es[k].target) || texts(
                            queue@,
                        ).contains(es[k].target),
                decreases self.edges@.len() - n,
            {
                let ghost before = texts(queue@);
                assert(es[n as int] == self.edges@[n as int]@);
                if same_text(self.edges[n].source.as_str(), current.as_str()) && !holds_text(
                    visited.as_slice(),
                    self.edges[n].target.as_str(),
                ) {
                    queue.push(self.edges[n].target.clone());
                    proof {
                        let t = es[n as int].target;
                        let after = texts(queue@);
                        assert(after =~= before.push(t));
                        assert(has_edge(es, c, t));
                        law_reach_follows_edges(es, start@, c, t);
                        assert(known[n + 1] == t);
                        assert(after[before.len() as int] == t);
                        assert forall|x: Seq<char>| before.contains(x) implies after.contains(
                            x,
                        ) by {
                            let i = choose|i: int| 0 <= i < before.len() && before[i] == x;
                            assert(after[i] == x);
                        }
                        assert forall|i: int| 0 <= i < queue@.len() implies known.contains(
                            #[trigger] after[i],
                        ) && reaches(es, start@, after[i]) by {
                            if i < before.len() {
                                assert(after[i] == before[i]);
                            }
                        }
                    }
                }
                n += 1;
            }
        }
        proof {
            let ids = texts(visited@);
            assert(texts(queue@) =~= Seq::empty());
            assert forall|k: int|
                0 <= k < es.len() && ids.contains((#[trigger] es[k]).source) implies ids.contains(
                es[k].target,
            ) by {}
            assert forall|x: Seq<char>| ids.contains(x) <==> #[trigger] reaches(
                es,
                start@,
                x,
            ) by {
                if ids.contains(x) {
                    let i = choose|i: int| 0 <= i < ids.len() && ids[i] == x;
                    assert(reaches(es, start@, ids[i]));
                }
                if reaches(es, start@, x) {
                    let p = choose|p: Seq<Seq<char>>|
                        p.len() > 0 && p[0] == start@ && p.last() == x && #[trigger] is_path(
                            es,
                            p,
                        );
                    lemma_closed_holds_path(es, ids, p, p.len() - 1);
                }
            }
        }
        visited
    }

    /// The nodes that a change of `node_id` reaches, but for itself.
    pub fn affected_by(&self, node_id: &str) -> (r: Vec<&GraphNode>)
        ensures
            node_ref_models(r@) == reached_nodes(
                node_models(self.nodes@),
                edge_models(self.edges@),
                node_id@,
            ),
    {
        let visited = self.reach(node_id);
        let ghost ns = node_models(self.nodes@);
        let ghost es = edge_models(self.edges@);
        let mut out: Vec<&GraphNode> = Vec::new();
        let mut i: usize = 0;
        assert(node_ref_models(out@) =~= reached_nodes(ns.take(0), es, node_id@));
        while i < self.nodes.len()
            invariant
                i <= self.nodes@.len(),
                ns == node_models(self.nodes@),
                es == edge_models(self.edges@),
                forall|x: Seq<char>|
                    texts(visited@).contains(x) <==> #[trigger] reaches(es, node_id@, x),
                node_ref_models(out@) == reached_nodes(ns.take(i as int), es, node_id@),
            decreases self.nodes@.len() - i,
        {
            let ghost before = node_ref_models(out@);
            proof {
                assert(ns.take(i + 1).drop_last() =~= ns.take(i as int));
                assert(ns.take(i + 1).last() == self.nodes@[i as int]@);
                assert(reaches(es, node_id@, ns[i as int].id) == texts(visited@).contains(
                    ns[i as int].id,
                ));
            }
            if !same_text(self.nodes[i].id.as_str(), node_id) && holds_text(
                visited.as_slice(),
                self.nodes[i].id.as_str(),
            ) {
                out.push(&self.nodes[i]);
                assert(node_ref_models(out@) =~= before.push(ns[i as int]));
            }
            i += 1;
        }
        assert(ns.take(i as int) =~= ns);
        out
    }

    /// The nodes with the ids, and the edges between them.
    pub fn subgraph(&self, node_ids: &[&str]) -> (r: CodePropertyGraph)
        ensures
            node_models(r.nodes@) == nodes_among(
                node_models(self.nodes@),
                str_views(node_ids@),
            ),
            edge_models(r.edges@) == edges_among(
                edge_models(self.edges@),
                str_views(node_ids@),
            ),
    {
        let ghost ns = node_models(self.nodes@);
        let ghost es = edge_models(self.edges@);
        let ghost ids = str_views(node_ids@);
        let mut nodes: Vec<GraphNode> = Vec::new();
        let mut i: usize = 0;
        assert(node_models(nodes@) =~= nodes_among(ns.take(0), ids));
        while i < self.nodes.len()
            invariant
                i <= self.nodes@.len(),
                ns == node_models(self.nodes@),
                ids == str_views(node_ids@),
                node_models(nodes@) == nodes_among(ns.take(i as int), ids),
            decreases self.nodes@.len() - i,
        {
            let ghost before = node_models(nodes@);
            proof {
                assert(ns.take(i + 1).drop_last() =~= ns.take(i as int));
                assert(ns.take(i + 1).last() == self.nodes@[i as int]@);
            }
            if is_one_of(self.nodes[i].id.as_str(), node_ids) {
                nodes.push(self.nodes[i].clone());
                assert(node_models(nodes@) =~= before.push(ns[i as int]));
            }
            i += 1;
        }
        let mut edges: Vec<GraphEdge> = Vec::new();
        let mut k: usize = 0;
        assert(edge_models(edges@) =~= edges_among(es.take(0), ids));
        while k < self.edges.len()
            invariant
                k <= self.edges@.len(),
                es == edge_models(self.edges@),
                ids == str_views(node_ids@),
                edge_models(edges@) == edges_among(es.take(k as int), ids),
            decreases self.edges@.len() - k,
        {
            let ghost before = edge_models(edges@);
            proof {
                assert(es.take(k + 1).drop_last() =~= es.take(k as int));
                assert(es.take(k + 1).last() == self.edges@[k as int]@);
            }
            if is_one_of(self.edges[k].source.as_str(), node_ids) && is_one_of(
                self.edges[k].target.as_str(),
                node_ids,
            ) {
                edges.push(self.edges[k].clone());
                assert(edge_models(edges@) =~= before.push(es[k as int]));
            }
            k += 1;
        }
        assert(ns.take(i as int) =~= ns);
        assert(es.take(k as int) =~= es);
        CodePropertyGraph { nodes, edges }
    }

    /// The graph as a picture shows it.
    pub fn to_cytoscape_json(&self) -> (r: Json)
        ensures
            r@ == graph_json(node_models(self.nodes@), edge_models(self.edges@)),
    {
        let ghost ns = node_models(self.nodes@).map_values(|n: NodeModel| node_json(n));
        let ghost es = edge_models(self.edges@).map_values(|e: EdgeModel| edge_json(e));
        let mut elements: Vec<Json> = Vec::new();
        let mut i: usize = 0;
        assert(list_models(elements@, elements@.len()) =~= ns.take(0));
        while i < self.nodes.len()
            invariant
                i <= self.nodes@.len(),
                ns == node_models(self.nodes@).map_values(|n: NodeModel| node_json(n)),
                list_models(elements@, elements@.len()) == ns.take(i as int),
            decreases self.nodes@.len() - i,
        {
            push_value(&mut elements, write_node(&self.nodes[i]));
            proof {
                assert(node_models(self.nodes@)[i as int] == self.nodes@[i as int]@);
                assert(ns.take(i + 1) =~= ns.take(i as int).push(ns[i as int]));
            }
            i += 1;
        }
        let mut k: usize = 0;
        assert(ns.take(i as int) =~= ns + es.take(0));
        while k < self.edges.len()
            invariant
                k <= self.edges@.len(),
                es == edge_models(self.edges@).map_values(|e: EdgeModel| edge_json(e)),
                list_models(elements@, elements@.len()) == ns + es.take(k as int),
            decreases self.edges@.len() - k,
        {
            push_value(&mut elements, write_edge(&self.edges[k]));
            proof {
                assert(edge_models(self.edges@)[k as int] == self.edges@[k as int]@);
                assert(ns + es.take(k + 1) =~= (ns + es.take(k as int)).push(es[k as int]));
            }
            k += 1;
        }
        assert(es.take(k as int) =~= es);
        let mut v: Vec<(String, Json)> = Vec::new();
        push_entry(&mut v, "elements", Json::List(elements));
        let r = Json::Object(v);
        assert(r@->Object_0 =~= graph_json(
            node_models(self.nodes@),
            edge_models(self.edges@),
        )->Object_0);
        r
    }

    fn place(&self, id: &str) -> (r: usize)
        ensures
            r == key_place(node_ids(node_models(self.nodes@)), id@),
            r <= self.nodes@.len(),
    {
        let ghost all = node_ids(node_models(self.nodes@));
        let mut i: usize = 0;
        assert(all.skip(0) =~= all);
        while i < self.nodes.len()
            invariant
                i <= self.nodes@.len(),
                all == node_ids(node_models(self.nodes@)),
                key_place(all, id@) == i + key_place(all.skip(i as int), id@),
            decreases self.nodes@.len() - i,
        {
            proof {
                assert(all.skip(i as int)[0] == self.nodes@[i as int]@.id);
                assert(all.skip(i as int).skip(1) =~= all.skip(i + 1));
            }
            if same_text(self.nodes[i].id.as_str(), id) {
                return i;
            }
            i += 1;
        }
        i
    }

    /// How big the graph is. A component is what edges connect, whichever way
    /// they lead.
    pub fn stats(&self) -> (r: GraphStats)
        ensures
            r.node_count == self.nodes@.len(),
            r.edge_count == self.edges@.len(),
            r.components == component_count(
                node_ids(node_models(self.nodes@)),
                edge_models(self.edges@),
                self.nodes@.len(),
            ),
    {
        let ghost ids = node_ids(node_models(self.nodes@));
        let ghost es = edge_models(self.edges@);
        let n: usize = self.nodes.len();
        let mut labels: Vec<usize> = Vec::new();
        let mut i: usize = 0;
        while i < n
            invariant
                i <= n,
                labels@.len() == i,
                forall|j: int| 0 <= j < i ==> #[trigger] labels@[j] == j,
            decreases n - i,
        {
            labels.push(i);
            i += 1;
        }
        let mut k: usize = 0;
        assert(labelled(ids, es, 0, labels@));
        while k < self.edges.len()
            invariant
                k <= self.edges@.len(),
                n == self.nodes@.len(),
                ids == node_ids(node_models(self.nodes@)),
                ids.len() == n,
                es == edge_models(self.edges@),
                es.len() == self.edges@.len(),
                labelled(ids, es, k as nat, labels@),
            decreases self.edges@.len() - k,
        {
            assert(es[k as int] == self.edges@[k as int]@);
            let a: usize = self.place(self.edges[k].source.as_str());
            let b: usize = self.place(self.edges[k].target.as_str());
            let ghost before = labels@;
            if a < n && b < n {
                let x: usize = labels[a];
                let y: usize = labels[b];
                let low: usize = if x < y {
                    x
                } else {
                    y
                };
                let high: usize = if x < y {
                    y
                } else {
                    x
                };
                let mut j: usize = 0;
                while j < n
                    invariant
                        j <= n,
                        before.len() == n,
                        labels@.len() == n,
                        forall|m: int|
                            0 <= m < n ==> #[trigger] labels@[m] == (if m < j && before[m]
                                == high {
                                low
                            } else {
                                before[m]
                            }),
                    decreases n - j,
                {
                    if labels[j] == high {
                        labels.set(j, low);
                    }
                    j += 1;
                }
                proof {
                    lemma_merged(
                        ids,
                        es,
                        k as nat,
                        before,
                        labels@,
                        a as int,
                        b as int,
                        low,
                        high,
                    );
                }
            } else {
                proof {
                    lemma_same_labels(ids, es, k as nat, before);
                }
            }
            k += 1;
        }
        let mut count: usize = 0;
        let mut m: usize = 0;
        while m < n
            invariant
                m <= n,
                count <= m,
                ids.len() == n,
                k == es.len(),
                labelled(ids, es, k as nat, labels@),
                count == component_count(ids, es, m as nat),
            decreases n - m,
        {
            proof {
                if labels@[m as int] == m {
                    assert forall|j: int| 0 <= j < m implies !(#[trigger] connected(
                        ids,
                        es,
                        es.len(),
                        m as int,
                        j,
                    )) by {
                        assert(labels@[j] <= j);
                        assert(labels@[m as int] == labels@[j] <==> connected(
                            ids,
                            es,
                            k as nat,
                            m as int,
                            j,
                        ));
                    }
                } else {
                    let j = labels@[m as int] as int;
                    assert(labels@[m as int] <= m);
                    assert(labels@[j] == labels@[m as int]);
                    assert(connected(ids, es, es.len(), m as int, j));
                }
            }
            if labels[m] == m {
                count += 1;
            }
            m += 1;
        }
        GraphStats { node_count: n, edge_count: self.edges.len(), components: count }
    }
}

impl Default for CodePropertyGraph {
    fn default() -> (r: CodePropertyGraph)
        ensures
            r.nodes@.len() == 0,
            r.edges@.len() == 0,
    {
        CodePropertyGraph::new()
    }
}

/// What is found in a graph is found among its nodes and edges, in their order: the nodes
/// that can be reached from another one, those that an edge leads to, and of a part of the
/// graph the nodes with its ids and the edges between them.
pub proof fn law_what_is_found_is_of_the_graph(
    nodes: Seq<NodeModel>,
    edges: Seq<EdgeModel>,
    start: Seq<char>,
    ids: Seq<Seq<char>>,
)
    ensures
        reached_nodes(nodes, edges, start) == nodes.filter(
            |n: NodeModel| n.id != start && reaches(edges, start, n.id),
        ),
        neighbor_nodes(nodes, edges, start) == nodes.filter(
            |n: NodeModel| has_edge(edges, start, n.id),
        ),
        nodes_among(nodes, ids) == nodes.filter(|n: NodeModel| ids.contains(n.id)),
    decreases nodes.len(),
{
    reveal(Seq::filter);
    if nodes.len() > 0 {
        law_what_is_found_is_of_the_graph(nodes.drop_last(), edges, start, ids);
    }
}

/// Of a part of the graph those edges are kept that lead from one of its ids to another.
pub proof fn law_edges_between_the_ids_are_kept(edges: Seq<EdgeModel>, ids: Seq<Seq<char>>)
    ensures
        edges_among(edges, ids) == edges.filter(
            |e: EdgeModel| ids.contains(e.source) && ids.contains(e.target),
        ),
    decreases edges.len(),
{
    reveal(Seq::filter);
    if edges.len() > 0 {
        law_edges_between_the_ids_are_kept(edges.drop_last(), ids);
    }
}

/// A picture tells of a node and of an edge what they are, each part under its own name.
pub proof fn law_pictures_show_nodes_and_edges(n: NodeModel, e: EdgeModel)
    ensures
        ({
            let data = node_json(n).member("data"@)->0;
            &&& node_json(n).member("data"@) is Some
            &&& node_json(n).member_text("group"@) == Some("nodes"@)
            &&& data.member_text("id"@) == Some(n.id)
            &&& data.member_text("label"@) == Some(n.label)
            &&& data.member_text("file"@) == Some(n.file)
            &&& data.member_text("type"@) == Some(n.node_type.words())
            &&& data.member("line"@) == Some(JsonModel::Number(decimal(n.line)))
        }),
        ({
            let data = edge_json(e).member("data"@)->0;
            &&& edge_json(e).member("data"@) is Some
            &&& edge_json(e).member_text("group"@) == Some("edges"@)
            &&& data.member_text("source"@) == Some(e.source)
            &&& data.member_text("target"@) == Some(e.target)
            &&& data.member_text("type"@) == Some(e.edge_type.words())
            &&& data.member("weight"@) == Some(JsonModel::Number(e.weight))
        }),
{
    reveal_strlit("data");
    reveal_strlit("group");
    reveal_strlit("file");
    reveal_strlit("id");
    reveal_strlit("label");
    reveal_strlit("line");
    reveal_strlit("type");
    reveal_strlit("source");
    reveal_strlit("target");
    reveal_strlit("weight");
    assert("data"@.len() == 4 && "group"@.len() == 5 && "id"@.len() == 2 && "label"@.len() == 5);
    assert("file"@.len() == 4 && "line"@.len() == 4 && "type"@.len() == 4);
    assert("file"@[0] == 'f' && "line"@[0] == 'l' && "type"@[0] == 't');
    assert("source"@.len() == 6 && "target"@.len() == 6 && "weight"@.len() == 6);
    assert("source"@[0] == 's' && "target"@[0] == 't' && "weight"@[0] == 'w');
    if let JsonModel::Object(v) = node_json(n) {
        law_members_are_found_by_key(v, "data"@, 0);
        law_members_are_found_by_key(v, "group"@, 1);
    }
    if let JsonModel::Object(v) = node_json(n).member("data"@)->0 {
        law_members_are_found_by_key(v, "file"@, 0);
        law_members_are_found_by_key(v, "id"@, 1);
        law_members_are_found_by_key(v, "label"@, 2);
        law_members_are_found_by_key(v, "line"@, 3);
        law_members_are_found_by_key(v, "type"@, 4);
    }
    if let JsonModel::Object(v) = edge_json(e) {
        law_members_are_found_by_key(v, "data"@, 0);
        law_members_are_found_by_key(v, "group"@, 1);
    }
    if let JsonModel::Object(v) = edge_json(e).member("data"@)->0 {
        law_members_are_found_by_key(v, "source"@, 0);
        law_members_are_found_by_key(v, "target"@, 1);
        law_members_are_found_by_key(v, "type"@, 2);
        law_members_are_found_by_key(v, "weight"@, 3);
    }
}

/// Every node is connected to one node that is the first of its component, and to no other,
/// so that those who are first are as many as there are components.
pub proof fn law_components_have_one_first(ids: Seq<Seq<char>>, edges: Seq<EdgeModel>, i: int)
    requires
        0 <= i,
    ensures
        exists|j: int|
            0 <= j <= i && #[trigger] is_first(ids, edges, j) && connected(
                ids,
                edges,
                edges.len(),
                i,
                j,
            ),
        forall|a: int, b: int|
            0 <= a && 0 <= b && #[trigger] is_first(ids, edges, a) && #[trigger] is_first(
                ids,
                edges,
                b,
            ) && connected(ids, edges, edges.len(), i, a) && connected(
                ids,
                edges,
                edges.len(),
                i,
                b,
            ) ==> a == b,
        component_count(ids, edges, (i + 1) as nat) == Seq::new((i + 1) as nat, |j: int| j).filter(
            |j: int| is_first(ids, edges, j),
        ).len(),
    decreases i,
{
    let k = edges.len();
    law_connection_is_an_equivalence(ids, edges, k, i, i, i);
    if !is_first(ids, edges, i) {
        let j = choose|j: int| 0 <= j < i && #[trigger] connected(ids, edges, k, i, j);
        law_components_have_one_first(ids, edges, j);
        let f = choose|f: int|
            0 <= f <= j && #[trigger] is_first(ids, edges, f) && connected(ids, edges, k, j, f);
        law_connection_is_an_equivalence(ids, edges, k, i, j, f);
        assert(is_first(ids, edges, f) && connected(ids, edges, k, i, f));
    }
    assert forall|a: int, b: int|
        0 <= a && 0 <= b && #[trigger] is_first(ids, edges, a) && #[trigger] is_first(
            ids,
            edges,
            b,
        ) && connected(ids, edges, k, i, a) && connected(ids, edges, k, i, b) implies a == b by {
        law_connection_is_an_equivalence(ids, edges, k, i, a, a);
        law_connection_is_an_equivalence(ids, edges, k, i, b, b);
        law_connection_is_an_equivalence(ids, edges, k, a, i, b);
        law_connection_is_an_equivalence(ids, edges, k, b, i, a);
    }
    lemma_first_count(ids, edges, (i + 1) as nat);
}

proof fn lemma_first_count(ids: Seq<Seq<char>>, edges: Seq<EdgeModel>, n: nat)
    ensures
        component_count(ids, edges, n) == Seq::new(n, |j: int| j).filter(
            |j: int| is_first(ids, edges, j),
        ).len(),
    decreases n,
{
    reveal(Seq::filter);
    if n > 0 {
        lemma_first_count(ids, edges, (n - 1) as nat);
        assert(Seq::new(n, |j: int| j).drop_last() =~= Seq::new((n - 1) as nat, |j: int| j));
    }
}

} // verus!
