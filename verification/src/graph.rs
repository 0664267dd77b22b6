//! The knowledge graph: deduplicated nodes, an insertion-ordered edge list.

use vstd::prelude::*;

use crate::json::{jview, JsonV, JsonValue};

verus! {

/// A node of the knowledge graph. `id` is an IRI, or `_:` followed by a blank
/// identifier. `types` is deduplicated and, after finalization, sorted.
/// `properties` maps predicate IRIs to values; a predicate recorded once holds
/// the value itself, one recorded several times holds an array.
pub struct GraphNode {
    pub id: String,
    pub types: Vec<String>,
    pub properties: Vec<(String, JsonValue)>,
}

/// A directed edge; `from` and `to` are node identities.
pub struct GraphEdge {
    pub from: String,
    pub to: String,
    pub predicate: String,
}

/// A finalized graph: nodes sorted by identity, edges in insertion order.
pub struct KnowledgeGraph {
    pub nodes: Vec<GraphNode>,
    pub edges: Vec<GraphEdge>,
}

#[verifier::ext_equal]
pub struct NodeV {
    pub id: Seq<char>,
    pub types: Seq<Seq<char>>,
    pub props: Seq<(Seq<char>, JsonV)>,
}

#[verifier::ext_equal]
pub struct EdgeV {
    pub from: Seq<char>,
    pub to: Seq<char>,
    pub predicate: Seq<char>,
}

#[verifier::ext_equal]
pub struct GraphV {
    pub nodes: Seq<NodeV>,
    pub edges: Seq<EdgeV>,
}

pub open spec fn pview(props: Seq<(String, JsonValue)>) -> Seq<(Seq<char>, JsonV)> {
    props.map_values(|p: (String, JsonValue)| (p.0@, jview(p.1)))
}

pub open spec fn nview(n: GraphNode) -> NodeV {
    NodeV {
        id: n.id@,
        types: n.types@.map_values(|t: String| t@),
        props: pview(n.properties@),
    }
}

pub open spec fn eview(e: GraphEdge) -> EdgeV {
    EdgeV { from: e.from@, to: e.to@, predicate: e.predicate@ }
}

pub open spec fn gview(g: KnowledgeGraph) -> GraphV {
    GraphV {
        nodes: g.nodes@.map_values(|n: GraphNode| nview(n)),
        edges: g.edges@.map_values(|e: GraphEdge| eview(e)),
    }
}

impl GraphNode {
    pub fn new(id: String) -> (r: GraphNode)
        ensures
            nview(r) == (NodeV { id: id@, types: Seq::<Seq<char>>::empty(), props: Seq::<(
                Seq<char>,
                JsonV,
            )>::empty() }),
    {
        let r = GraphNode { id, types: Vec::new(), properties: Vec::new() };
        proof {
            assert(r.types@.map_values(|t: String| t@) =~= Seq::<Seq<char>>::empty());
            assert(pview(r.properties@) =~= Seq::<(Seq<char>, JsonV)>::empty());
        }
        r
    }
}


impl Clone for GraphNode {
    fn clone(&self) -> (r: GraphNode)
        ensures
            nview(r) == nview(*self),
    {
        let mut types: Vec<String> = Vec::new();
        let mut i: usize = 0;
        while i < self.types.len()
            invariant
                i <= self.types@.len(),
                types@.len() == i,
                forall|j: int| 0 <= j < i ==> #[trigger] types@[j]@ == self.types@[j]@,
            decreases self.types@.len() - i,
        {
            types.push(self.types[i].clone());
            i = i + 1;
        }
        let mut properties: Vec<(String, JsonValue)> = Vec::new();
        let mut i: usize = 0;
        while i < self.properties.len()
            invariant
                i <= self.properties@.len(),
                properties@.len() == i,
                forall|j: int| 0 <= j < i ==> #[trigger] properties@[j].0@
                    == self.properties@[j].0@ && jview(properties@[j].1) == jview(
                    self.properties@[j].1,
                ),
            decreases self.properties@.len() - i,
        {
            let key = self.properties[i].0.clone();
            let val = crate::document::clone_json(&self.properties[i].1);
            properties.push((key, val));
            i = i + 1;
        }
        let r = GraphNode { id: self.id.clone(), types, properties };
        proof {
            assert(nview(r).types =~= nview(*self).types);
            assert(nview(r).props =~= nview(*self).props);
        }
        r
    }
}

impl Clone for GraphEdge {
    fn clone(&self) -> (r: GraphEdge)
        ensures
            eview(r) == eview(*self),
    {
        GraphEdge { from: self.from.clone(), to: self.to.clone(), predicate: self.predicate.clone() }
    }
}

/// Identities of all nodes, in order.
pub open spec fn node_ids(nodes: Seq<NodeV>) -> Seq<Seq<char>> {
    nodes.map_values(|n: NodeV| n.id)
}

/// Index of the first node with identity `id`, or `-1`.
pub open spec fn node_index(nodes: Seq<NodeV>, id: Seq<char>) -> int
    decreases nodes,
{
    if nodes.len() == 0 {
        -1
    } else if nodes.first().id == id {
        0
    } else {
        let r = node_index(nodes.drop_first(), id);
        if r < 0 {
            -1
        } else {
            r + 1
        }
    }
}

pub broadcast proof fn node_index_props(nodes: Seq<NodeV>, id: Seq<char>)
    ensures
        -1 <= #[trigger] node_index(nodes, id) < nodes.len(),
        node_index(nodes, id) >= 0 ==> nodes[node_index(nodes, id)].id == id,
        node_index(nodes, id) == -1 ==> forall|j: int| 0 <= j < nodes.len() ==> nodes[j].id != id,
    decreases nodes,
{
    if nodes.len() > 0 && nodes.first().id != id {
        node_index_props(nodes.drop_first(), id);
        assert forall|j: int| node_index(nodes, id) == -1 && 0 <= j < nodes.len() implies nodes[j].id
            != id by {
            if j > 0 {
                assert(nodes.drop_first()[j - 1] == nodes[j]);
            }
        }
    }
}

/// No two nodes share an identity.
pub open spec fn unique_ids(nodes: Seq<NodeV>) -> bool {
    forall|i: int, j: int| 0 <= i < j < nodes.len() ==> nodes[i].id != nodes[j].id
}

// ---------------------------------------------------------------------------
// Lexicographic order on identities (by character, as `String`'s own order).
// ---------------------------------------------------------------------------

pub open spec fn lex_le(a: Seq<char>, b: Seq<char>) -> bool
    decreases a.len(),
{
    if a.len() == 0 {
        true
    } else if b.len() == 0 {
        false
    } else if a.first() < b.first() {
        true
    } else if b.first() < a.first() {
        false
    } else {
        lex_le(a.drop_first(), b.drop_first())
    }
}

pub proof fn lex_le_total(a: Seq<char>, b: Seq<char>)
    ensures
        lex_le(a, b) || lex_le(b, a),
        lex_le(a, b) && lex_le(b, a) ==> a == b,
    decreases a.len(),
{
    if a.len() > 0 && b.len() > 0 && a.first() == b.first() {
        lex_le_total(a.drop_first(), b.drop_first());
        if lex_le(a, b) && lex_le(b, a) {
            assert(a =~= seq![a.first()] + a.drop_first());
            assert(b =~= seq![b.first()] + b.drop_first());
        }
    }
}

pub proof fn lex_le_trans(a: Seq<char>, b: Seq<char>, c: Seq<char>)
    requires
        lex_le(a, b),
        lex_le(b, c),
    ensures
        lex_le(a, c),
    decreases a.len(),
{
    if a.len() > 0 && b.len() > 0 && c.len() > 0 && a.first() == b.first() && b.first()
        == c.first() {
        lex_le_trans(a.drop_first(), b.drop_first(), c.drop_first());
    }
}

pub fn lex_le_exec(a: &[char], b: &[char]) -> (r: bool)
    ensures
        r == lex_le(a@, b@),
{
    let n = if a.len() < b.len() {
        a.len()
    } else {
        b.len()
    };
    let mut i: usize = 0;
    proof {
        assert(a@.skip(0) =~= a@);
        assert(b@.skip(0) =~= b@);
    }
    while i < n
        invariant
            n <= a@.len() && n <= b@.len(),
            i <= n,
            lex_le(a@, b@) == lex_le(a@.skip(i as int), b@.skip(i as int)),
        decreases n - i,
    {
        if a[i] < b[i] {
            assert(a@.skip(i as int).first() == a@[i as int]);
            assert(b@.skip(i as int).first() == b@[i as int]);
            return true;
        }
        if b[i] < a[i] {
            assert(a@.skip(i as int).first() == a@[i as int]);
            assert(b@.skip(i as int).first() == b@[i as int]);
            return false;
        }
        proof {
            assert(a@[i as int] == b@[i as int]);
            assert(a@.skip(i as int).first() == a@[i as int]);
            assert(b@.skip(i as int).first() == b@[i as int]);
            assert(a@.skip(i as int).drop_first() =~= a@.skip(i + 1));
            assert(b@.skip(i as int).drop_first() =~= b@.skip(i + 1));
        }
        i = i + 1;
    }
    // one side is exhausted: the shorter sequence comes first
    proof {
        if a@.len() <= b@.len() {
            assert(a@.skip(n as int).len() == 0);
        } else {
            assert(b@.skip(n as int).len() == 0);
            assert(a@.skip(n as int).len() > 0);
        }
    }
    a.len() <= b.len()
}


/// Strictly ascending in the lexicographic order: sorted, no duplicates.
pub open spec fn sorted_unique(ts: Seq<Seq<char>>) -> bool {
    forall|a: int, b: int| 0 <= a < b < ts.len() ==> lex_le(ts[a], ts[b]) && ts[a] != ts[b]
}

/// What finalization guarantees of a graph: nodes strictly sorted by
/// identity, every type list strictly sorted.
pub open spec fn graph_wf(g: GraphV) -> bool {
    &&& sorted_unique(node_ids(g.nodes))
    &&& forall|i: int| 0 <= i < g.nodes.len() ==> sorted_unique(#[trigger] g.nodes[i].types)
}


/// `x` occurs among `s`.
pub open spec fn appears(x: NodeV, s: Seq<NodeV>) -> bool {
    exists|j: int| 0 <= j < s.len() && x == s[j]
}

/// `out` is the finalized form of one of `nodes`.
pub open spec fn finalizes_some(nodes: Seq<NodeV>, out: NodeV) -> bool {
    exists|j: int| 0 <= j < nodes.len() && finalizes(nodes[j], out)
}

/// One finalized node against the builder's record of it: the same identity
/// and properties, and the same types up to order and multiplicity.
pub open spec fn finalizes(orig: NodeV, out: NodeV) -> bool {
    &&& out.id == orig.id
    &&& out.props == orig.props
    &&& sorted_unique(out.types)
    &&& out.types.to_set() == orig.types.to_set()
}

} // verus!
