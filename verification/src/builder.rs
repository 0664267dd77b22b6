//! The graph builder: a single depth-first walk over an expanded document,
//! emitting deduplicated nodes and an edge list, with a processing set that
//! breaks reference cycles.
//!
//! The spec functions `sp_*` define the walk mathematically over a `BState`;
//! the executable methods are proved equal to them on every document whose
//! nodes all carry an identity (an identity-less node gets a freshly
//! generated blank identifier, so its outcome is not a function of the
//! document alone).

use vstd::prelude::*;

use crate::document::{node_named, nodes_named, object_named, objects_named, props_named,
    reverse_named, spec_id_string, spec_normalize, ExpandedNode, ExpandedObject, NodeId};
use crate::graph::{node_index, node_index_props, unique_ids, EdgeV, NodeV};
use crate::json::{obj_index, obj_index_props, JsonV};

verus! {

/// The builder's abstract state.
#[verifier::ext_equal]
pub struct BState {
    pub nodes: Seq<NodeV>,
    pub edges: Seq<EdgeV>,
    pub processing: Set<Seq<char>>,
}

/// Make sure a node with this identity exists; never overwrite one.
pub open spec fn st_insert_node(s: BState, id: Seq<char>) -> BState {
    if node_index(s.nodes, id) >= 0 {
        s
    } else {
        BState {
            nodes: s.nodes.push(
                NodeV {
                    id: id,
                    types: Seq::<Seq<char>>::empty(),
                    props: Seq::<(Seq<char>, JsonV)>::empty(),
                },
            ),
            ..s
        }
    }
}

/// Record a type on a node, once.
pub open spec fn st_add_type(s: BState, id: Seq<char>, ty: Seq<char>) -> BState {
    let i = node_index(s.nodes, id);
    if i < 0 {
        s
    } else if s.nodes[i].types.contains(ty) {
        s
    } else {
        BState {
            nodes: s.nodes.update(i, NodeV { types: s.nodes[i].types.push(ty), ..s.nodes[i] }),
            ..s
        }
    }
}

pub open spec fn st_add_edge(s: BState, from: Seq<char>, to: Seq<char>, pred: Seq<char>) -> BState {
    BState { edges: s.edges.push(EdgeV { from: from, to: to, predicate: pred }), ..s }
}

/// Record one property value: a first value is stored as the value itself, a
/// second value turns the entry into a two-element array, and any further
/// value is appended to that array.
pub open spec fn upd_props(
    props: Seq<(Seq<char>, JsonV)>,
    pred: Seq<char>,
    v: JsonV,
) -> Seq<(Seq<char>, JsonV)> {
    let k = obj_index(props, pred);
    if k < 0 {
        props.push((pred, v))
    } else {
        match props[k].1 {
            JsonV::Array(arr) => props.update(k, (pred, JsonV::Array(arr.push(v)))),
            old_v => props.update(k, (pred, JsonV::Array(seq![old_v, v]))),
        }
    }
}

pub open spec fn st_add_prop(s: BState, id: Seq<char>, pred: Seq<char>, v: JsonV) -> BState {
    let i = node_index(s.nodes, id);
    if i < 0 {
        s
    } else {
        BState {
            nodes: s.nodes.update(
                i,
                NodeV { props: upd_props(s.nodes[i].props, pred, v), ..s.nodes[i] },
            ),
            ..s
        }
    }
}

// ---------------------------------------------------------------------------
// The walk itself. Each `sp_xxx` with an index argument folds the first `i`
// elements of a sequence, so the executable loops can state their invariants
// over the same functions.
// ---------------------------------------------------------------------------

/// The identity under which a node is recorded (defined for named nodes).
pub open spec fn spec_node_id(n: ExpandedNode) -> Seq<char> {
    match n.id {
        Some(i) => spec_id_string(i),
        None => Seq::<char>::empty(),
    }
}

pub open spec fn sp_object(s: BState, o: ExpandedObject) -> (BState, Option<Seq<char>>)
    decreases o,
{
    match o {
        ExpandedObject::Node(n) => {
            let r = sp_node(s, n);
            (r.0, Some(r.1))
        },
        ExpandedObject::List(items) => (sp_list_top(s, items@, items@.len() as int), None),
        ExpandedObject::Value(_) => (s, None),
    }
}

/// Top-level list traversal: every item is processed, identities discarded.
pub open spec fn sp_list_top(s: BState, items: Seq<ExpandedObject>, i: int) -> BState
    decreases items, i,
{
    if i <= 0 || i > items.len() {
        s
    } else {
        sp_object(sp_list_top(s, items, i - 1), items[i - 1]).0
    }
}

pub open spec fn sp_node(s: BState, n: ExpandedNode) -> (BState, Seq<char>)
    decreases n,
{
    let id = spec_node_id(n);
    let s1 = st_insert_node(s, id);
    if s1.processing.contains(id) {
        (s1, id)
    } else {
        let s2 = BState { processing: s1.processing.insert(id), ..s1 };
        let s3 = sp_types(s2, id, n.types@, n.types@.len() as int);
        let s4 = sp_graph(s3, id, n.graph@, n.graph@.len() as int);
        let s5 = sp_included(s4, id, n.included@, n.included@.len() as int);
        let s6 = sp_reverse(s5, id, n.reverse@, n.reverse@.len() as int);
        let s7 = sp_props(s6, id, n.properties@, n.properties@.len() as int);
        let s8 = BState { processing: s7.processing.remove(id), ..s7 };
        (s8, id)
    }
}

pub open spec fn sp_types(s: BState, id: Seq<char>, types: Seq<NodeId>, i: int) -> BState
    decreases i,
{
    if i <= 0 || i > types.len() {
        s
    } else {
        st_add_type(sp_types(s, id, types, i - 1), id, spec_id_string(types[i - 1]))
    }
}

pub open spec fn sp_graph(s: BState, id: Seq<char>, objs: Seq<ExpandedObject>, i: int) -> BState
    decreases objs, i,
{
    if i <= 0 || i > objs.len() {
        s
    } else {
        let prev = sp_graph(s, id, objs, i - 1);
        let r = sp_object(prev, objs[i - 1]);
        match r.1 {
            Some(target) => st_add_edge(r.0, id, target, "@graph"@),
            None => r.0,
        }
    }
}

pub open spec fn sp_included(s: BState, id: Seq<char>, ns: Seq<ExpandedNode>, i: int) -> BState
    decreases ns, i,
{
    if i <= 0 || i > ns.len() {
        s
    } else {
        let prev = sp_included(s, id, ns, i - 1);
        let r = sp_node(prev, ns[i - 1]);
        st_add_edge(r.0, id, r.1, "@included"@)
    }
}

pub open spec fn sp_reverse(
    s: BState,
    id: Seq<char>,
    pairs: Seq<(NodeId, Vec<ExpandedNode>)>,
    i: int,
) -> BState
    decreases pairs, i,
{
    if i <= 0 || i > pairs.len() {
        s
    } else {
        let prev = sp_reverse(s, id, pairs, i - 1);
        sp_rev_nodes(
            prev,
            id,
            spec_id_string(pairs[i - 1].0),
            pairs[i - 1].1@,
            pairs[i - 1].1@.len() as int,
        )
    }
}

/// Reverse-property targets: the edge runs from the target back to `id`.
pub open spec fn sp_rev_nodes(
    s: BState,
    id: Seq<char>,
    pred: Seq<char>,
    ns: Seq<ExpandedNode>,
    i: int,
) -> BState
    decreases ns, i,
{
    if i <= 0 || i > ns.len() {
        s
    } else {
        let prev = sp_rev_nodes(s, id, pred, ns, i - 1);
        let r = sp_node(prev, ns[i - 1]);
        st_add_edge(r.0, r.1, id, pred)
    }
}

pub open spec fn sp_props(
    s: BState,
    id: Seq<char>,
    pairs: Seq<(NodeId, Vec<ExpandedObject>)>,
    i: int,
) -> BState
    decreases pairs, i,
{
    if i <= 0 || i > pairs.len() {
        s
    } else {
        let prev = sp_props(s, id, pairs, i - 1);
        let pred = spec_id_string(pairs[i - 1].0);
        let r = sp_values(
            prev,
            id,
            pred,
            pairs[i - 1].1@,
            pairs[i - 1].1@.len() as int,
            Seq::<JsonV>::empty(),
        );
        sp_add_all(r.0, id, pred, r.1, r.1.len() as int)
    }
}

/// Collect the values of one predicate: literals accumulate, nested nodes
/// become edges at once, lists flatten their literal members into one array.
pub open spec fn sp_values(
    s: BState,
    src: Seq<char>,
    pred: Seq<char>,
    vals: Seq<ExpandedObject>,
    i: int,
    acc: Seq<JsonV>,
) -> (BState, Seq<JsonV>)
    decreases vals, i,
{
    if i <= 0 || i > vals.len() {
        (s, acc)
    } else {
        let prev = sp_values(s, src, pred, vals, i - 1, acc);
        sp_value(prev.0, src, pred, vals[i - 1], prev.1)
    }
}

pub open spec fn sp_value(
    s: BState,
    src: Seq<char>,
    pred: Seq<char>,
    v: ExpandedObject,
    acc: Seq<JsonV>,
) -> (BState, Seq<JsonV>)
    decreases v,
{
    match v {
        ExpandedObject::Value(lit) => match spec_normalize(lit) {
            Some(j) => (s, acc.push(j)),
            None => (s, acc),
        },
        ExpandedObject::Node(n) => {
            let r = sp_node(s, n);
            (st_add_edge(r.0, src, r.1, pred), acc)
        },
        ExpandedObject::List(items) => {
            let r = sp_values(s, src, pred, items@, items@.len() as int, Seq::<JsonV>::empty());
            if r.1.len() == 0 {
                (r.0, acc)
            } else {
                (r.0, acc.push(JsonV::Array(r.1)))
            }
        },
    }
}

/// Attach each collected value in turn.
pub open spec fn sp_add_all(
    s: BState,
    id: Seq<char>,
    pred: Seq<char>,
    values: Seq<JsonV>,
    i: int,
) -> BState
    decreases i,
{
    if i <= 0 || i > values.len() {
        s
    } else {
        st_add_prop(sp_add_all(s, id, pred, values, i - 1), id, pred, values[i - 1])
    }
}

/// A whole document: its top-level objects in order.
pub open spec fn sp_document(s: BState, doc: Seq<ExpandedObject>, i: int) -> BState
    decreases doc, i,
{
    if i <= 0 || i > doc.len() {
        s
    } else {
        sp_object(sp_document(s, doc, i - 1), doc[i - 1]).0
    }
}


// ---------------------------------------------------------------------------
// The executable builder.
// ---------------------------------------------------------------------------

/// The set of views of a sequence of strings.
pub open spec fn str_set(p: Seq<String>) -> Set<Seq<char>> {
    Set::new(|s: Seq<char>| exists|i: int| 0 <= i < p.len() && p[i]@ == s)
}

/// No two entries of `p` read the same.
pub open spec fn nodup_strs(p: Seq<String>) -> bool {
    forall|i: int, j: int| 0 <= i < j < p.len() ==> p[i]@ != p[j]@
}

pub struct GraphBuilder {
    nodes: Vec<crate::graph::GraphNode>,
    edges: Vec<crate::graph::GraphEdge>,
    processing: Vec<String>,
}

impl GraphBuilder {
    pub closed spec fn bview(self) -> BState {
        BState {
            nodes: self.nodes@.map_values(|n: crate::graph::GraphNode| crate::graph::nview(n)),
            edges: self.edges@.map_values(|e: crate::graph::GraphEdge| crate::graph::eview(e)),
            processing: str_set(self.processing@),
        }
    }

    pub closed spec fn wf(self) -> bool {
        unique_ids(self.bview().nodes) && nodup_strs(self.processing@)
    }

    pub fn new() -> (r: GraphBuilder)
        ensures
            r.wf(),
            r.bview() == (BState {
                nodes: Seq::<NodeV>::empty(),
                edges: Seq::<EdgeV>::empty(),
                processing: Set::<Seq<char>>::empty(),
            }),
    {
        let r = GraphBuilder { nodes: Vec::new(), edges: Vec::new(), processing: Vec::new() };
        proof {
            assert(r.bview().nodes =~= Seq::<NodeV>::empty());
            assert(r.bview().edges =~= Seq::<EdgeV>::empty());
            assert(r.bview().processing =~= Set::<Seq<char>>::empty());
        }
        r
    }

    #[verifier::loop_isolation(false)]
    fn find_node(&self, id: &String) -> (r: Option<usize>)
        ensures
            match r {
                Some(i) => i < self.nodes@.len() && i == node_index(self.bview().nodes, id@),
                None => node_index(self.bview().nodes, id@) == -1,
            },
    {
        let ghost nv = self.bview().nodes;
        proof {
            assert(nv.skip(0) =~= nv);
        }
        let mut i: usize = 0;
        while i < self.nodes.len()
            invariant
                i <= self.nodes@.len(),
                nv == self.bview().nodes,
                nv.len() == self.nodes@.len(),
                node_index(nv, id@) == if node_index(nv.skip(i as int), id@) >= 0 {
                    i + node_index(nv.skip(i as int), id@)
                } else {
                    -1
                },
            decreases self.nodes@.len() - i,
        {
            proof {
                node_index_props(nv.skip(i as int), id@);
                assert(nv.skip(i as int).first() == nv[i as int]);
            }
            if self.nodes[i].id.eq(id) {
                return Some(i);
            }
            proof {
                assert(nv.skip(i as int).drop_first() =~= nv.skip(i + 1));
            }
            i = i + 1;
        }
        proof {
            assert(nv.skip(nv.len() as int) =~= Seq::<NodeV>::empty());
        }
        None
    }

    #[verifier::loop_isolation(false)]
    fn in_processing(&self, id: &String) -> (r: bool)
        ensures
            r == self.bview().processing.contains(id@),
    {
        let mut i: usize = 0;
        while i < self.processing.len()
            invariant
                i <= self.processing@.len(),
                forall|j: int| 0 <= j < i ==> self.processing@[j]@ != id@,
            decreases self.processing@.len() - i,
        {
            if self.processing[i].eq(id) {
                assert(str_set(self.processing@).contains(id@));
                return true;
            }
            i = i + 1;
        }
        assert(!str_set(self.processing@).contains(id@));
        false
    }

    fn push_processing(&mut self, id: &String)
        requires
            old(self).wf(),
            !old(self).bview().processing.contains(id@),
        ensures
            final(self).wf(),
            final(self).nodes == old(self).nodes,
            final(self).edges == old(self).edges,
            final(self).bview() == (BState {
                processing: old(self).bview().processing.insert(id@),
                ..old(self).bview()
            }),
    {
        self.processing.push(id.clone());
        proof {
            assert(str_set(self.processing@) =~= str_set(
                old(self).processing@,
            ).insert(id@)) by {
                assert forall|s: Seq<char>| str_set(self.processing@).contains(s) implies str_set(
                    old(self).processing@,
                ).insert(id@).contains(s) by {
                    let i = choose|i: int| 0 <= i < self.processing@.len() && self.processing@[i]@
                        == s;
                    if i < old(self).processing@.len() {
                        assert(str_set(old(self).processing@).contains(s));
                    }
                }
                assert forall|s: Seq<char>| str_set(old(self).processing@).insert(id@).contains(
                    s,
                ) implies str_set(self.processing@).contains(s) by {
                    if s == id@ {
                        assert(self.processing@[self.processing@.len() - 1]@ == s);
                    } else {
                        let i = choose|i: int|
                            0 <= i < old(self).processing@.len() && old(self).processing@[i]@ == s;
                        assert(self.processing@[i]@ == s);
                    }
                }
            }
        }
    }

    #[verifier::loop_isolation(false)]
    fn remove_processing(&mut self, id: &String)
        requires
            old(self).wf(),
        ensures
            final(self).wf(),
            final(self).nodes == old(self).nodes,
            final(self).edges == old(self).edges,
            final(self).bview() == (BState {
                processing: old(self).bview().processing.remove(id@),
                ..old(self).bview()
            }),
    {
        let ghost p0 = self.processing@;
        let mut i: usize = 0;
        while i < self.processing.len()
            invariant
                i <= self.processing@.len(),
                self.processing@ == p0,
                *self == *old(self),
                forall|j: int| 0 <= j < i ==> p0[j]@ != id@,
            decreases self.processing@.len() - i,
        {
            if self.processing[i].eq(id) {
                self.processing.remove(i);
                proof {
                    p0.remove_ensures(i as int);
                    assert forall|a: int, b: int|
                        0 <= a < b < self.processing@.len() implies self.processing@[a]@
                        != self.processing@[b]@ by {
                        assert(self.processing@[a] == if a < i {
                            p0[a]
                        } else {
                            p0[a + 1]
                        });
                        assert(self.processing@[b] == if b < i {
                            p0[b]
                        } else {
                            p0[b + 1]
                        });
                    }
                    assert(str_set(self.processing@) =~= str_set(p0).remove(id@)) by {
                        assert forall|s: Seq<char>|
                            str_set(self.processing@).contains(s) implies str_set(p0).remove(
                            id@,
                        ).contains(s) by {
                            let a = choose|a: int|
                                0 <= a < self.processing@.len() && self.processing@[a]@ == s;
                            if a < i {
                                assert(p0[a]@ == s);
                            } else {
                                assert(p0[a + 1]@ == s);
                                assert(p0[a + 1]@ != id@);
                            }
                        }
                        assert forall|s: Seq<char>| str_set(p0).remove(id@).contains(
                            s,
                        ) implies str_set(self.processing@).contains(s) by {
                            let a = choose|a: int| 0 <= a < p0.len() && p0[a]@ == s;
                            assert(a != i);
                            if a < i {
                                assert(self.processing@[a]@ == s);
                            } else {
                                assert(self.processing@[a - 1]@ == s);
                            }
                        }
                    }
                }
                return ;
            }
            i = i + 1;
        }
        proof {
            assert(!str_set(p0).contains(id@));
            assert(str_set(p0) =~= str_set(p0).remove(id@));
        }
    }

    fn add_edge(&mut self, from: String, to: String, predicate: String)
        requires
            old(self).wf(),
        ensures
            final(self).wf(),
            final(self).bview() == st_add_edge(old(self).bview(), from@, to@, predicate@),
    {
        let ghost fromv = from@;
        let ghost tov = to@;
        let ghost predv = predicate@;
        self.edges.push(crate::graph::GraphEdge { from, to, predicate });
        proof {
            assert(self.bview().edges =~= old(self).bview().edges.push(
                EdgeV { from: fromv, to: tov, predicate: predv },
            ));
            assert(self.bview().nodes =~= old(self).bview().nodes);
        }
    }

    /// Create the node for this identity if it is new.
    fn ensure_node(&mut self, id: &String)
        requires
            old(self).wf(),
        ensures
            final(self).wf(),
            final(self).bview() == st_insert_node(old(self).bview(), id@),
    {
        proof {
            node_index_props(self.bview().nodes, id@);
        }
        let found = self.find_node(id);
        match found {
            Some(_) => {},
            None => {
                let n = crate::graph::GraphNode::new(id.clone());
                self.nodes.push(n);
                proof {
                    assert(self.bview().nodes =~= old(self).bview().nodes.push(
                        NodeV {
                            id: id@,
                            types: Seq::<Seq<char>>::empty(),
                            props: Seq::<(Seq<char>, JsonV)>::empty(),
                        },
                    ));
                    assert(self.bview().edges =~= old(self).bview().edges);
                    let nv = self.bview().nodes;
                    assert forall|a: int, b: int| 0 <= a < b < nv.len() implies nv[a].id
                        != nv[b].id by {
                        node_index_props(old(self).bview().nodes, id@);
                        if b == nv.len() - 1 {
                            assert(nv[a].id == old(self).bview().nodes[a].id);
                        }
                    }
                }
            },
        }
    }

    /// Record one type on an existing node, skipping duplicates.
    #[verifier::loop_isolation(false)]
    fn add_type(&mut self, id: &String, ty: String)
        requires
            old(self).wf(),
        ensures
            final(self).wf(),
            final(self).bview() == st_add_type(old(self).bview(), id@, ty@),
    {
        proof {
            node_index_props(self.bview().nodes, id@);
        }
        let found = self.find_node(id);
        match found {
            None => {},
            Some(i) => {
                let ghost nv0 = self.bview().nodes;
                // does the node already carry this type?
                let mut k: usize = 0;
                let mut found_ty = false;
                while k < self.nodes[i].types.len()
                    invariant
                        i < self.nodes@.len(),
                        k <= self.nodes@[i as int].types@.len(),
                        *self == *old(self),
                        nv0 == self.bview().nodes,
                        found_ty == (exists|j: int|
                            0 <= j < k && self.nodes@[i as int].types@[j]@ == ty@),
                    decreases self.nodes@[i as int].types@.len() - k,
                {
                    if self.nodes[i].types[k].eq(&ty) {
                        found_ty = true;
                    }
                    k = k + 1;
                }
                proof {
                    assert(found_ty == nv0[i as int].types.contains(ty@)) by {
                        if nv0[i as int].types.contains(ty@) {
                            let j = choose|j: int|
                                0 <= j < nv0[i as int].types.len() && nv0[i as int].types[j] == ty@;
                            assert(self.nodes@[i as int].types@[j]@ == ty@);
                        }
                        if found_ty {
                            let j = choose|j: int|
                                0 <= j < self.nodes@[i as int].types@.len()
                                    && self.nodes@[i as int].types@[j]@ == ty@;
                            assert(nv0[i as int].types[j] == ty@);
                            assert(nv0[i as int].types.contains(ty@));
                        }
                    }
                }
                if !found_ty {
                    let ghost tyv = ty@;
                    self.nodes[i].types.push(ty);
                    proof {
                        assert(self.bview().nodes =~~= nv0.update(
                            i as int,
                            NodeV { types: nv0[i as int].types.push(tyv), ..nv0[i as int] },
                        ));
                        assert(self.bview().edges =~= old(self).bview().edges);
                        assert(str_set(self.processing@) =~= old(self).bview().processing);
                        let nv = self.bview().nodes;
                        assert forall|a: int, b: int| 0 <= a < b < nv.len() implies nv[a].id
                            != nv[b].id by {
                            assert(nv[a].id == nv0[a].id);
                            assert(nv[b].id == nv0[b].id);
                        }
                    }
                }
            },
        }
    }
}



// ---------------------------------------------------------------------------
// Named-ness distributes to the elements of each fold.
// ---------------------------------------------------------------------------

proof fn objects_named_index(items: Seq<ExpandedObject>, n: int, j: int)
    requires
        objects_named(items, n),
        0 <= j < n <= items.len(),
    ensures
        object_named(items[j]),
    decreases n,
{
    if j < n - 1 {
        objects_named_index(items, n - 1, j);
    }
}

proof fn nodes_named_index(ns: Seq<ExpandedNode>, n: int, j: int)
    requires
        nodes_named(ns, n),
        0 <= j < n <= ns.len(),
    ensures
        node_named(ns[j]),
    decreases n,
{
    if j < n - 1 {
        nodes_named_index(ns, n - 1, j);
    }
}

proof fn reverse_named_index(pairs: Seq<(NodeId, Vec<ExpandedNode>)>, n: int, j: int)
    requires
        reverse_named(pairs, n),
        0 <= j < n <= pairs.len(),
    ensures
        nodes_named(pairs[j].1@, pairs[j].1@.len() as int),
    decreases n,
{
    if j < n - 1 {
        reverse_named_index(pairs, n - 1, j);
    }
}

proof fn props_named_index(pairs: Seq<(NodeId, Vec<ExpandedObject>)>, n: int, j: int)
    requires
        props_named(pairs, n),
        0 <= j < n <= pairs.len(),
    ensures
        objects_named(pairs[j].1@, pairs[j].1@.len() as int),
    decreases n,
{
    if j < n - 1 {
        props_named_index(pairs, n - 1, j);
    }
}

/// Relies on `uuid::Uuid::new_v4` and its `Display` form: the hyphenated
/// rendering of a (random) UUID, which is always 36 characters long.
#[verifier::external_body]
fn fresh_uuid() -> (r: Vec<char>)
    ensures
        r@.len() == 36,
{
    uuid::Uuid::new_v4().to_string().chars().collect()
}

/// The identity a node is recorded under: its own, or a freshly generated
/// blank identifier when it carries none.
pub fn node_identifier(id: &Option<NodeId>) -> (r: String)
    ensures
        match id {
            Some(i) => r@ == spec_id_string(*i),
            None => r@.len() == 38 && r@.subrange(0, 2) == "_:"@,
        },
{
    match id {
        Some(i) => crate::document::id_to_string(i),
        None => {
            let mut v = crate::text::to_chars("_:");
            let u = fresh_uuid();
            crate::text::push_all(&mut v, u.as_slice());
            proof {
                reveal_strlit("_:");
                assert(v@.subrange(0, 2) =~= "_:"@);
            }
            crate::text::from_chars(&v)
        },
    }
}

/// First property entry recorded under `pred`, if any.
fn props_find(props: &Vec<(String, crate::json::JsonValue)>, pred: &String) -> (r: Option<usize>)
    ensures
        match r {
            Some(k) => k < props@.len() && k == obj_index(crate::graph::pview(props@), pred@)
                && props@[k as int].0@ == pred@,
            None => obj_index(crate::graph::pview(props@), pred@) == -1,
        },
{
    let ghost pv = crate::graph::pview(props@);
    proof {
        assert(pv.skip(0) =~= pv);
    }
    let mut k: usize = 0;
    while k < props.len()
        invariant
            k <= props@.len(),
            pv == crate::graph::pview(props@),
            pv.len() == props@.len(),
            obj_index(pv, pred@) == if obj_index(pv.skip(k as int), pred@) >= 0 {
                k + obj_index(pv.skip(k as int), pred@)
            } else {
                -1
            },
        decreases props@.len() - k,
    {
        proof {
            obj_index_props(pv.skip(k as int), pred@);
            assert(pv.skip(k as int).first() == pv[k as int]);
        }
        if props[k].0.eq(pred) {
            return Some(k);
        }
        proof {
            assert(pv.skip(k as int).drop_first() =~= pv.skip(k + 1));
        }
        k = k + 1;
    }
    proof {
        assert(pv.skip(pv.len() as int) =~= Seq::<(Seq<char>, JsonV)>::empty());
    }
    None
}

impl GraphBuilder {
    /// Record one value under a predicate of an existing node: the first value
    /// is kept as a scalar, later ones promote the entry to an array.
    fn add_property_value(
        &mut self,
        node_id: &String,
        predicate: &String,
        value: crate::json::JsonValue,
    )
        requires
            old(self).wf(),
        ensures
            final(self).wf(),
            final(self).bview() == st_add_prop(
                old(self).bview(),
                node_id@,
                predicate@,
                crate::json::jview(value),
            ),
    {
        proof {
            node_index_props(self.bview().nodes, node_id@);
        }
        let ghost valv = crate::json::jview(value);
        let found = self.find_node(node_id);
        match found {
            None => {},
            Some(i) => {
                let ghost nv0 = self.bview().nodes;
                let ghost props0 = nv0[i as int].props;
                proof {
                    obj_index_props(props0, predicate@);
                }
                let k = props_find(&self.nodes[i].properties, predicate);
                match k {
                    None => {
                        self.nodes[i].properties.push((predicate.clone(), value));
                        proof {
                            assert(crate::graph::pview(self.nodes@[i as int].properties@)
                                =~~= props0.push((predicate@, valv)));
                            assert(self.bview().nodes =~~= nv0.update(
                                i as int,
                                NodeV { props: upd_props(props0, predicate@, valv), ..nv0[i as int] },
                            ));
                            assert(self.bview().edges =~= old(self).bview().edges);
                            assert(str_set(self.processing@) =~= old(self).bview().processing);
                            let nv = self.bview().nodes;
                            assert forall|a: int, b: int| 0 <= a < b < nv.len() implies nv[a].id
                                != nv[b].id by {
                                assert(nv[a].id == nv0[a].id);
                                assert(nv[b].id == nv0[b].id);
                            }
                        }
                    },
                    Some(k) => {
                        let pair = self.nodes[i].properties.remove(k);
                        let ghost keyv = pair.0@;
                        let newv = match pair.1 {
                            crate::json::JsonValue::Array(mut arr) => {
                                let ghost arr0 = arr@;
                                arr.push(value);
                                proof {
                                    assert(arr@.drop_last() =~= arr0);
                                    assert(crate::json::jview_seq(arr@)
                                        == crate::json::jview_seq(arr0).push(valv));
                                }
                                crate::json::JsonValue::Array(arr)
                            },
                            other => {
                                let mut two: Vec<crate::json::JsonValue> = Vec::new();
                                let ghost otherv = crate::json::jview(other);
                                two.push(other);
                                two.push(value);
                                proof {
                                    crate::json::jview_seq_len(two@);
                                    crate::json::jview_seq_index(two@, 0);
                                    crate::json::jview_seq_index(two@, 1);
                                    assert(crate::json::jview_seq(two@) =~= seq![otherv, valv]);
                                }
                                crate::json::JsonValue::Array(two)
                            },
                        };
                        let ghost newvv = crate::json::jview(newv);
                        self.nodes[i].properties.insert(k, (pair.0, newv));
                        proof {
                            assert(self.nodes@[i as int].properties@ =~= old(
                                self,
                            ).nodes@[i as int].properties@.update(k as int, (
                                old(self).nodes@[i as int].properties@[k as int].0,
                                self.nodes@[i as int].properties@[k as int].1,
                            )));
                            assert(crate::graph::pview(self.nodes@[i as int].properties@)
                                =~~= upd_props(props0, predicate@, valv));
                            assert(self.bview().nodes =~~= nv0.update(
                                i as int,
                                NodeV { props: upd_props(props0, predicate@, valv), ..nv0[i as int] },
                            ));
                            assert(self.bview().edges =~= old(self).bview().edges);
                            assert(str_set(self.processing@) =~= old(self).bview().processing);
                            let nv = self.bview().nodes;
                            assert forall|a: int, b: int| 0 <= a < b < nv.len() implies nv[a].id
                                != nv[b].id by {
                                assert(nv[a].id == nv0[a].id);
                                assert(nv[b].id == nv0[b].id);
                            }
                        }
                    },
                }
            },
        }
    }
}



impl GraphBuilder {
    /// Consume one document: process its top-level objects in order.
    #[verifier::loop_isolation(false)]
    pub fn ingest_document(&mut self, doc: &Vec<ExpandedObject>)
        requires
            old(self).wf(),
        ensures
            final(self).wf(),
            objects_named(doc@, doc@.len() as int) ==> final(self).bview() == sp_document(
                old(self).bview(),
                doc@,
                doc@.len() as int,
            ),
    {
        let ghost s0 = self.bview();
        let mut i: usize = 0;
        while i < doc.len()
            invariant
                i <= doc@.len(),
                self.wf(),
                objects_named(doc@, doc@.len() as int) ==> self.bview() == sp_document(
                    s0,
                    doc@,
                    i as int,
                ),
            decreases doc@.len() - i,
        {
            proof {
                if objects_named(doc@, doc@.len() as int) {
                    objects_named_index(doc@, doc@.len() as int, i as int);
                }
            }
            let _ = self.process_indexed_object(&doc[i]);
            i = i + 1;
        }
    }

    #[verifier::loop_isolation(false)]
    fn process_indexed_object(&mut self, object: &ExpandedObject) -> (r: Option<String>)
        requires
            old(self).wf(),
        ensures
            final(self).wf(),
            object_named(*object) ==> ({
                let res = sp_object(old(self).bview(), *object);
                &&& final(self).bview() == res.0
                &&& (match r {
                    Some(s) => res.1 == Some(s@),
                    None => res.1 is None,
                })
            }),
        decreases *object,
    {
        match object {
            ExpandedObject::Node(node) => Some(self.process_node(node)),
            ExpandedObject::List(items) => {
                let ghost s0 = self.bview();
                let mut i: usize = 0;
                while i < items.len()
                    invariant
                        i <= items@.len(),
                        self.wf(),
                        objects_named(items@, items@.len() as int) ==> self.bview() == sp_list_top(
                            s0,
                            items@,
                            i as int,
                        ),
                    decreases items@.len() - i,
                {
                    proof {
                        if objects_named(items@, items@.len() as int) {
                            objects_named_index(items@, items@.len() as int, i as int);
                        }
                    }
                    let _ = self.process_indexed_object(&items[i]);
                    i = i + 1;
                }
                None
            },
            ExpandedObject::Value(_) => None,
        }
    }

    #[verifier::loop_isolation(false)]
    fn process_node(&mut self, node: &ExpandedNode) -> (r: String)
        requires
            old(self).wf(),
        ensures
            final(self).wf(),
            node_named(*node) ==> ({
                let res = sp_node(old(self).bview(), *node);
                final(self).bview() == res.0 && r@ == res.1
            }),
        decreases *node,
    {
        let ghost s0 = self.bview();
        let node_id = node_identifier(&node.id);
        self.ensure_node(&node_id);
        if self.in_processing(&node_id) {
            return node_id;
        }
        self.push_processing(&node_id);
        let ghost s2 = self.bview();

        // declared types, deduplicated
        let mut i: usize = 0;
        while i < node.types.len()
            invariant
                i <= node.types@.len(),
                self.wf(),
                self.bview() == sp_types(s2, node_id@, node.types@, i as int),
            decreases node.types@.len() - i,
        {
            let ty = crate::document::id_to_string(&node.types[i]);
            self.add_type(&node_id, ty);
            i = i + 1;
        }
        let ghost s3 = self.bview();

        // nested graph contents
        let mut i: usize = 0;
        while i < node.graph.len()
            invariant
                i <= node.graph@.len(),
                self.wf(),
                node_named(*node) ==> self.bview() == sp_graph(
                    s3,
                    node_id@,
                    node.graph@,
                    i as int,
                ),
            decreases node.graph@.len() - i,
        {
            proof {
                if node_named(*node) {
                    objects_named_index(node.graph@, node.graph@.len() as int, i as int);
                }
            }
            let target = self.process_indexed_object(&node.graph[i]);
            match target {
                Some(target_id) => {
                    self.add_edge(node_id.clone(), target_id, String::from_str("@graph"));
                },
                None => {},
            }
            i = i + 1;
        }
        let ghost s4 = self.bview();

        // included nodes
        let mut i: usize = 0;
        while i < node.included.len()
            invariant
                i <= node.included@.len(),
                self.wf(),
                node_named(*node) ==> self.bview() == sp_included(
                    s4,
                    node_id@,
                    node.included@,
                    i as int,
                ),
            decreases node.included@.len() - i,
        {
            proof {
                if node_named(*node) {
                    nodes_named_index(node.included@, node.included@.len() as int, i as int);
                }
            }
            let target_id = self.process_node(&node.included[i]);
            self.add_edge(node_id.clone(), target_id, String::from_str("@included"));
            i = i + 1;
        }
        let ghost s5 = self.bview();

        // reverse properties: edges run from the target back to this node
        let mut i: usize = 0;
        while i < node.reverse.len()
            invariant
                i <= node.reverse@.len(),
                self.wf(),
                node_named(*node) ==> self.bview() == sp_reverse(
                    s5,
                    node_id@,
                    node.reverse@,
                    i as int,
                ),
            decreases node.reverse@.len() - i,
        {
            let predicate = crate::document::id_to_string(&node.reverse[i].0);
            let ghost sr = self.bview();
            let mut j: usize = 0;
            while j < node.reverse[i].1.len()
                invariant
                    i < node.reverse@.len(),
                    j <= node.reverse@[i as int].1@.len(),
                    self.wf(),
                    predicate@ == spec_id_string(node.reverse@[i as int].0),
                    node_named(*node) ==> self.bview() == sp_rev_nodes(
                        sr,
                        node_id@,
                        predicate@,
                        node.reverse@[i as int].1@,
                        j as int,
                    ),
                decreases node.reverse@[i as int].1@.len() - j,
            {
                proof {
                    if node_named(*node) {
                        reverse_named_index(node.reverse@, node.reverse@.len() as int, i as int);
                        nodes_named_index(
                            node.reverse@[i as int].1@,
                            node.reverse@[i as int].1@.len() as int,
                            j as int,
                        );
                    }
                }
                let source_id = self.process_node(&node.reverse[i].1[j]);
                self.add_edge(source_id, node_id.clone(), predicate.clone());
                j = j + 1;
            }
            i = i + 1;
        }
        let ghost s6 = self.bview();

        // forward properties
        let mut i: usize = 0;
        while i < node.properties.len()
            invariant
                i <= node.properties@.len(),
                self.wf(),
                node_named(*node) ==> self.bview() == sp_props(
                    s6,
                    node_id@,
                    node.properties@,
                    i as int,
                ),
            decreases node.properties@.len() - i,
        {
            let predicate = crate::document::id_to_string(&node.properties[i].0);
            proof {
                if node_named(*node) {
                    props_named_index(node.properties@, node.properties@.len() as int, i as int);
                }
            }
            let collected = self.collect_property_values(
                &node_id,
                &predicate,
                &node.properties[i].1,
            );
            proof {
                crate::json::jview_seq_len(collected@);
            }
            let ghost sv = self.bview();
            let mut k: usize = 0;
            while k < collected.len()
                invariant
                    i < node.properties@.len(),
                    k <= collected@.len(),
                    self.wf(),
                    crate::json::jview_seq(collected@).len() == collected@.len(),
                    node_named(*node) ==> self.bview() == sp_add_all(
                        sv,
                        node_id@,
                        predicate@,
                        crate::json::jview_seq(collected@),
                        k as int,
                    ),
                decreases collected@.len() - k,
            {
                let v = crate::document::clone_json(&collected[k]);
                proof {
                    crate::json::jview_seq_index(collected@, k as int);
                }
                self.add_property_value(&node_id, &predicate, v);
                k = k + 1;
            }
            i = i + 1;
        }
        self.remove_processing(&node_id);
        node_id
    }

    #[verifier::loop_isolation(false)]
    fn collect_property_values(
        &mut self,
        source_id: &String,
        predicate: &String,
        values: &Vec<ExpandedObject>,
    ) -> (r: Vec<crate::json::JsonValue>)
        requires
            old(self).wf(),
        ensures
            final(self).wf(),
            objects_named(values@, values@.len() as int) ==> ({
                let res = sp_values(
                    old(self).bview(),
                    source_id@,
                    predicate@,
                    values@,
                    values@.len() as int,
                    Seq::<JsonV>::empty(),
                );
                final(self).bview() == res.0 && crate::json::jview_seq(r@) == res.1
            }),
        decreases *values,
    {
        let mut collected: Vec<crate::json::JsonValue> = Vec::new();
        let ghost s0 = self.bview();
        let mut i: usize = 0;
        while i < values.len()
            invariant
                i <= values@.len(),
                self.wf(),
                objects_named(values@, values@.len() as int) ==> ({
                    let res = sp_values(
                        s0,
                        source_id@,
                        predicate@,
                        values@,
                        i as int,
                        Seq::<JsonV>::empty(),
                    );
                    self.bview() == res.0 && crate::json::jview_seq(collected@) == res.1
                }),
            decreases values@.len() - i,
        {
            proof {
                if objects_named(values@, values@.len() as int) {
                    objects_named_index(values@, values@.len() as int, i as int);
                }
            }
            self.handle_value(source_id, predicate, &values[i], &mut collected);
            i = i + 1;
        }
        collected
    }

    #[verifier::loop_isolation(false)]
    fn handle_value(
        &mut self,
        source_id: &String,
        predicate: &String,
        value: &ExpandedObject,
        collected: &mut Vec<crate::json::JsonValue>,
    )
        requires
            old(self).wf(),
        ensures
            final(self).wf(),
            object_named(*value) ==> ({
                let res = sp_value(
                    old(self).bview(),
                    source_id@,
                    predicate@,
                    *value,
                    crate::json::jview_seq(old(collected)@),
                );
                final(self).bview() == res.0 && crate::json::jview_seq(final(collected)@) == res.1
            }),
        decreases *value,
    {
        match value {
            ExpandedObject::Value(lit) => {
                let normalized = crate::document::value_object_to_json(lit);
                match normalized {
                    Some(json) => {
                        let ghost c0 = collected@;
                        let ghost jv = crate::json::jview(json);
                        collected.push(json);
                        proof {
                            assert(collected@.drop_last() =~= c0);
                            assert(crate::json::jview_seq(collected@) == crate::json::jview_seq(
                                c0,
                            ).push(jv));
                        }
                    },
                    None => {},
                }
                proof {
                    assert(*value == ExpandedObject::Value(*lit));
                }
            },
            ExpandedObject::Node(node) => {
                let target_id = self.process_node(node);
                self.add_edge(source_id.clone(), target_id, predicate.clone());
                proof {
                    assert(*value == ExpandedObject::Node(*node));
                }
            },
            ExpandedObject::List(items) => {
                let mut list_values: Vec<crate::json::JsonValue> = Vec::new();
                let ghost s0 = self.bview();
                let mut i: usize = 0;
                while i < items.len()
                    invariant
                        i <= items@.len(),
                        self.wf(),
                        objects_named(items@, items@.len() as int) ==> ({
                            let res = sp_values(
                                s0,
                                source_id@,
                                predicate@,
                                items@,
                                i as int,
                                Seq::<JsonV>::empty(),
                            );
                            self.bview() == res.0 && crate::json::jview_seq(list_values@) == res.1
                        }),
                        collected@ == old(collected)@,
                    decreases items@.len() - i,
                {
                    proof {
                        if objects_named(items@, items@.len() as int) {
                            objects_named_index(items@, items@.len() as int, i as int);
                        }
                    }
                    self.handle_value(source_id, predicate, &items[i], &mut list_values);
                    i = i + 1;
                }
                proof {
                    crate::json::jview_seq_len(list_values@);
                }
                if list_values.len() > 0 {
                    let ghost c0 = collected@;
                    let ghost lv = crate::json::jview_seq(list_values@);
                    collected.push(crate::json::JsonValue::Array(list_values));
                    proof {
                        assert(collected@.drop_last() =~= c0);
                        assert(crate::json::jview(collected@.last()) == JsonV::Array(lv));
                        assert(crate::json::jview_seq(collected@) == crate::json::jview_seq(
                            c0,
                        ).push(JsonV::Array(lv)));
                    }
                }
            },
        }
    }
}



// ---------------------------------------------------------------------------
// Finalization: sorted, deduplicated, immutable.
// ---------------------------------------------------------------------------

/// Inserting `tv` at its lower bound keeps a strictly sorted sequence of
/// identities strictly sorted.
proof fn lemma_sorted_insert_ids(oids: Seq<Seq<char>>, ids: Seq<Seq<char>>, tv: Seq<char>, pos: int)
    requires
        crate::graph::sorted_unique(oids),
        0 <= pos <= oids.len(),
        ids == oids.insert(pos, tv),
        forall|k: int| 0 <= k < pos ==> !crate::graph::lex_le(tv, #[trigger] oids[k]),
        pos < oids.len() ==> crate::graph::lex_le(tv, oids[pos]) && tv != oids[pos],
    ensures
        crate::graph::sorted_unique(ids),
{
    oids.insert_ensures(pos, tv);
    assert forall|a: int, b: int| 0 <= a < b < ids.len() implies crate::graph::lex_le(
        ids[a],
        ids[b],
    ) && ids[a] != ids[b] by {
        if a == pos {
            // ids[a] == tv, ids[b] == oids[b - 1], b - 1 >= pos
            if b - 1 > pos {
                crate::graph::lex_le_trans(tv, oids[pos], oids[b - 1]);
                if ids[a] == ids[b] {
                    crate::graph::lex_le_total(oids[pos], oids[b - 1]);
                    crate::graph::lex_le_total(tv, oids[pos]);
                }
            }
        } else if b == pos {
            // ids[a] == oids[a], ids[b] == tv, a < pos
            crate::graph::lex_le_total(tv, oids[a]);
        } else if a < pos && b > pos {
            crate::graph::lex_le_total(tv, oids[a]);
            if b - 1 > pos {
                crate::graph::lex_le_trans(tv, oids[pos], oids[b - 1]);
            }
            crate::graph::lex_le_trans(oids[a], tv, oids[b - 1]);
            if ids[a] == ids[b] {
                crate::graph::lex_le_total(oids[a], tv);
            }
        }
    }
}

/// Insert a string into a strictly sorted vector, keeping it strictly sorted;
/// a string already present is dropped. The element set grows by the string.
#[verifier::loop_isolation(false)]
fn sorted_insert_unique(out: &mut Vec<String>, t: String)
    requires
        crate::graph::sorted_unique(old(out)@.map_values(|s: String| s@)),
    ensures
        crate::graph::sorted_unique(final(out)@.map_values(|s: String| s@)),
        final(out)@.map_values(|s: String| s@).to_set() == old(out)@.map_values(
            |s: String| s@,
        ).to_set().insert(t@),
{
    let ghost tv = t@;
    let ghost ov = old(out)@.map_values(|s: String| s@);
    let mut pos: usize = 0;
    while pos < out.len() && !crate::graph::lex_le_exec(
        crate::text::to_chars(t.as_str()).as_slice(),
        crate::text::to_chars(out[pos].as_str()).as_slice(),
    )
        invariant
            pos <= out@.len(),
            out@ == old(out)@,
            forall|k: int| 0 <= k < pos ==> !crate::graph::lex_le(tv, ov[k]),
        decreases out@.len() - pos,
    {
        pos = pos + 1;
    }
    if pos < out.len() && out[pos].eq(&t) {
        // already recorded
        proof {
            assert(ov.contains(tv)) by {
                assert(ov[pos as int] == tv);
            }
            assert(ov.to_set().insert(tv) =~= ov.to_set());
        }
        return ;
    }
    out.insert(pos, t);
    proof {
        let nv = out@.map_values(|s: String| s@);
        assert(nv =~= ov.insert(pos as int, tv));
        assert forall|a: int, b: int| 0 <= a < b < nv.len() implies crate::graph::lex_le(
            nv[a],
            nv[b],
        ) && nv[a] != nv[b] by {
            crate::graph::lex_le_total(tv, ov[pos as int]);
            if a == pos {
                // nv[a] == tv, nv[b] == ov[b - 1] with b - 1 >= pos
                crate::graph::lex_le_total(tv, ov[b - 1]);
                if b - 1 > pos {
                    crate::graph::lex_le_trans(tv, ov[pos as int], ov[b - 1]);
                    if nv[a] == nv[b] {
                        crate::graph::lex_le_total(ov[pos as int], ov[b - 1]);
                    }
                } else {
                    if nv[a] == nv[b] {
                        assert(tv == ov[pos as int]);
                        assert(false);
                    }
                }
            } else if b == pos {
                // nv[b] == tv, nv[a] == ov[a] with a < pos
                crate::graph::lex_le_total(tv, ov[a]);
                if nv[a] == nv[b] {
                    assert(!crate::graph::lex_le(tv, ov[a]));
                    assert(false);
                }
            } else if a < pos && b > pos {
                crate::graph::lex_le_total(tv, ov[a]);
                if b - 1 > pos {
                    crate::graph::lex_le_trans(tv, ov[pos as int], ov[b - 1]);
                }
                crate::graph::lex_le_trans(ov[a], tv, ov[b - 1]);
                assert(crate::graph::lex_le(nv[a], nv[b]));
                assert(nv[a] != nv[b]);
            } else if b < pos {
                assert(nv[a] == ov[a] && nv[b] == ov[b]);
            } else {
                assert(nv[a] == ov[a - 1] && nv[b] == ov[b - 1]);
            }
        }
        assert(nv.to_set() =~= ov.to_set().insert(tv)) by {
            assert forall|s: Seq<char>| nv.to_set().contains(s) implies ov.to_set().insert(
                tv,
            ).contains(s) by {
                let k = choose|k: int| 0 <= k < nv.len() && nv[k] == s;
                if k < pos {
                    assert(ov[k] == s);
                    assert(ov.contains(s));
                } else if k > pos {
                    assert(ov[k - 1] == s);
                    assert(ov.contains(s));
                }
            }
            assert forall|s: Seq<char>| ov.to_set().insert(tv).contains(s) implies nv.to_set().contains(
                s,
            ) by {
                if s == tv {
                    assert(nv[pos as int] == s);
                    assert(nv.contains(s));
                } else {
                    let k = choose|k: int| 0 <= k < ov.len() && ov[k] == s;
                    if k < pos {
                        assert(nv[k] == s);
                    } else {
                        assert(nv[k + 1] == s);
                    }
                    assert(nv.contains(s));
                }
            }
        }
    }
}

impl GraphBuilder {
    /// Consume the builder and hand out the finished graph: every node's type
    /// list sorted and deduplicated, nodes sorted by identity, edges kept in
    /// insertion order.
    pub fn into_graph(self) -> (r: crate::graph::KnowledgeGraph)
        requires
            self.wf(),
        ensures
            crate::graph::graph_wf(crate::graph::gview(r)),
            crate::graph::gview(r).edges == self.bview().edges,
            crate::graph::gview(r).nodes.len() == self.bview().nodes.len(),
            forall|k: int| 0 <= k < crate::graph::gview(r).nodes.len()
                ==> crate::graph::finalizes_some(
                self.bview().nodes,
                #[trigger] crate::graph::gview(r).nodes[k],
            ),
    {
        let ghost bv = self.bview();
        let GraphBuilder { nodes, edges, processing: _ } = self;
        let ghost nv0 = bv.nodes;
        proof {
            assert(nodes@.map_values(|n: crate::graph::GraphNode| crate::graph::nview(n)) =~= nv0);
        }
        let finished = finalize_all(&nodes);
        let ghost fv = finished@.map_values(|n: crate::graph::GraphNode| crate::graph::nview(n));
        proof {
            assert forall|a: int, b: int| 0 <= a < b < fv.len() implies fv[a].id != fv[b].id by {
                assert(crate::graph::finalizes(nv0[a], fv[a]));
                assert(crate::graph::finalizes(nv0[b], fv[b]));
            }
        }
        let sorted = sort_nodes(&finished);
        let ghost sortedg = sorted@;
        let ghost sv = sorted@.map_values(|n: crate::graph::GraphNode| crate::graph::nview(n));
        let r = crate::graph::KnowledgeGraph { nodes: sorted, edges };
        proof {
            assert(crate::graph::gview(r).edges =~= bv.edges);
            assert(crate::graph::gview(r).nodes =~= sv);
            assert forall|k: int| 0 <= k < sv.len() implies crate::graph::finalizes_some(
                nv0,
                #[trigger] sv[k],
            ) by {
                assert(sv[k] == crate::graph::nview(sortedg[k]));
                assert(crate::graph::appears(crate::graph::nview(sortedg[k]), fv));
                let j = choose|j: int|
                    0 <= j < fv.len() && crate::graph::nview(sortedg[k]) == fv[j];
                assert(crate::graph::finalizes(nv0[j], fv[j]));
                assert(crate::graph::finalizes(nv0[j], sv[k]));
            }
            assert forall|i: int| 0 <= i < sv.len() implies crate::graph::sorted_unique(
                (#[trigger] sv[i]).types,
            ) by {
                assert(sv[i] == crate::graph::nview(sortedg[i]));
                assert(crate::graph::appears(crate::graph::nview(sortedg[i]), fv));
                let j = choose|j: int|
                    0 <= j < fv.len() && crate::graph::nview(sortedg[i]) == fv[j];
                assert(crate::graph::finalizes(nv0[j], fv[j]));
            }
        }
        r
    }
}

/// Finalize every node: types sorted and deduplicated, order kept.
fn finalize_all(nodes: &Vec<crate::graph::GraphNode>) -> (r: Vec<crate::graph::GraphNode>)
    ensures
        r@.len() == nodes@.len(),
        forall|j: int| 0 <= j < nodes@.len() ==> crate::graph::finalizes(
            crate::graph::nview(#[trigger] nodes@[j]),
            crate::graph::nview(r@[j]),
        ),
{
    let mut out: Vec<crate::graph::GraphNode> = Vec::new();
    let mut i: usize = 0;
    while i < nodes.len()
        invariant
            i <= nodes@.len(),
            out@.len() == i,
            forall|j: int| 0 <= j < i ==> crate::graph::finalizes(
                crate::graph::nview(#[trigger] nodes@[j]),
                crate::graph::nview(out@[j]),
            ),
        decreases nodes@.len() - i,
    {
        let node = nodes[i].clone();
        let finished = finalize_node(node);
        out.push(finished);
        i = i + 1;
    }
    out
}

/// Sort nodes by identity; identities are unique, so no node is dropped.
#[verifier::loop_isolation(false)]
#[verifier::rlimit(30)]
fn sort_nodes(input: &Vec<crate::graph::GraphNode>) -> (r: Vec<crate::graph::GraphNode>)
    requires
        unique_ids(input@.map_values(|n: crate::graph::GraphNode| crate::graph::nview(n))),
    ensures
        r@.len() == input@.len(),
        crate::graph::sorted_unique(crate::graph::node_ids(
            r@.map_values(|n: crate::graph::GraphNode| crate::graph::nview(n)),
        )),
        forall|k: int| #![trigger r@[k]] 0 <= k < r@.len() ==> crate::graph::appears(
            crate::graph::nview(r@[k]),
            input@.map_values(|n: crate::graph::GraphNode| crate::graph::nview(n)),
        ),
{
    let ghost iv = input@.map_values(|n: crate::graph::GraphNode| crate::graph::nview(n));
    let mut sorted: Vec<crate::graph::GraphNode> = Vec::new();
    let mut taken: usize = 0;
    proof {
        assert(sorted@.map_values(|n: crate::graph::GraphNode| crate::graph::nview(n)) =~= Seq::<
            NodeV,
        >::empty());
    }
    while taken < input.len()
        invariant
            taken <= iv.len(),
            iv.len() == input@.len(),
            sorted@.len() == taken,
            crate::graph::sorted_unique(crate::graph::node_ids(
                sorted@.map_values(|n: crate::graph::GraphNode| crate::graph::nview(n)),
            )),
            forall|k: int| #![trigger sorted@[k]] 0 <= k < sorted@.len()
                ==> crate::graph::appears(
                crate::graph::nview(sorted@[k]),
                iv.take(taken as int),
            ),
        decreases input@.len() - taken,
    {
        let node = input[taken].clone();
        proof {
            assert(crate::graph::nview(node) == iv[taken as int]);
        }
        let ghost prev_raw = sorted@;
        let ghost prev = sorted@.map_values(|n: crate::graph::GraphNode| crate::graph::nview(n));
        insert_node_sorted(&mut sorted, node);
        proof {
            let cur = sorted@.map_values(|n: crate::graph::GraphNode| crate::graph::nview(n));
            if sorted@.len() == prev_raw.len() {
                let k = choose|k: int|
                    #![trigger prev_raw[k]]
                    0 <= k < prev_raw.len() && crate::graph::nview(prev_raw[k]).id == iv[taken as int].id;
                assert(crate::graph::appears(crate::graph::nview(prev_raw[k]), iv.take(
                    taken as int,
                )));
                let j = choose|j: int|
                    0 <= j < iv.take(taken as int).len() && crate::graph::nview(prev_raw[k])
                        == iv.take(taken as int)[j];
                assert(iv[j] == iv.take(taken as int)[j]);
                assert(iv[j].id == iv[taken as int].id);
                assert(false);
            } else {
                let p = choose|p: int|
                    0 <= p <= prev.len() && cur =~= #[trigger] prev.insert(p, iv[taken as int]);
                prev.insert_ensures(p, iv[taken as int]);
                assert forall|k: int| #![trigger sorted@[k]] 0 <= k < sorted@.len()
                    implies crate::graph::appears(
                    crate::graph::nview(sorted@[k]),
                    iv.take(taken + 1),
                ) by {
                    assert(crate::graph::nview(sorted@[k]) == cur[k]);
                    assert(iv.take(taken + 1)[taken as int] == iv[taken as int]);
                    if k == p {
                        assert(cur[k] == iv[taken as int]);
                        assert(crate::graph::appears(cur[k], iv.take(taken + 1)));
                    } else {
                        let k0 = if k < p {
                            k
                        } else {
                            k - 1
                        };
                        assert(cur[k] == prev[k0]);
                        assert(prev[k0] == crate::graph::nview(prev_raw[k0]));
                        assert(crate::graph::appears(crate::graph::nview(prev_raw[k0]), iv.take(
                            taken as int,
                        )));
                        let j = choose|j: int|
                            0 <= j < iv.take(taken as int).len() && crate::graph::nview(
                                prev_raw[k0],
                            ) == iv.take(taken as int)[j];
                        assert(iv.take(taken + 1)[j] == iv.take(taken as int)[j]);
                        assert(crate::graph::appears(cur[k], iv.take(taken + 1)));
                    }
                }
            }
        }
        taken = taken + 1;
    }
    let r = sorted;
    proof {
        assert(iv.take(iv.len() as int) =~= iv);
        assert(iv =~= input@.map_values(|n: crate::graph::GraphNode| crate::graph::nview(n)));
        assert forall|k: int| #![trigger r@[k]] 0 <= k < r@.len() implies crate::graph::appears(
            crate::graph::nview(r@[k]),
            input@.map_values(|n: crate::graph::GraphNode| crate::graph::nview(n)),
        ) by {
            assert(crate::graph::appears(crate::graph::nview(r@[k]), iv.take(taken as int)));
        }
    }
    r
}

/// Sort and deduplicate a node's types.
#[verifier::loop_isolation(false)]
fn finalize_node(node: crate::graph::GraphNode) -> (r: crate::graph::GraphNode)
    ensures
        crate::graph::finalizes(crate::graph::nview(node), crate::graph::nview(r)),
{
    let crate::graph::GraphNode { id, types, properties } = node;
    let mut out: Vec<String> = Vec::new();
    let ghost tv = types@.map_values(|s: String| s@);
    let mut rest = types;
    let ghost mut taken: int = 0;
    proof {
        assert(out@.map_values(|s: String| s@) =~= Seq::<Seq<char>>::empty());
        assert(Seq::<Seq<char>>::empty().to_set() =~= tv.take(0).to_set());
        assert(rest@.map_values(|s: String| s@) =~= tv.skip(0));
    }
    while rest.len() > 0
        invariant
            0 <= taken,
            taken + rest@.len() == tv.len(),
            rest@.map_values(|s: String| s@) =~= tv.skip(taken),
            crate::graph::sorted_unique(out@.map_values(|s: String| s@)),
            out@.map_values(|s: String| s@).to_set() == tv.take(taken).to_set(),
        decreases rest@.len(),
    {
        let ghost restv = rest@.map_values(|s: String| s@);
        let t = rest.remove(0);
        proof {
            assert(restv[0] == t@);
            assert(tv.skip(taken)[0] == tv[taken]);
            assert(t@ == tv[taken]);
            assert(rest@.map_values(|s: String| s@) =~= restv.drop_first());
            assert(restv.drop_first() =~= tv.skip(taken + 1));
        }
        sorted_insert_unique(&mut out, t);
        proof {
            assert(tv.take(taken + 1) =~= tv.take(taken).push(tv[taken]));
            assert(tv.take(taken + 1).to_set() =~= tv.take(taken).to_set().insert(
                tv[taken],
            )) by {
                assert forall|s: Seq<char>| tv.take(taken + 1).to_set().contains(
                    s,
                ) implies tv.take(taken).to_set().insert(tv[taken]).contains(s) by {
                    let k = choose|k: int| 0 <= k < tv.take(taken + 1).len() && #[trigger] tv.take(
                        taken + 1,
                    )[k] == s;
                    if k < taken {
                        assert(tv.take(taken)[k] == s);
                        assert(tv.take(taken).contains(s));
                    }
                }
                assert forall|s: Seq<char>| tv.take(taken).to_set().insert(
                    tv[taken],
                ).contains(s) implies tv.take(taken + 1).to_set().contains(s) by {
                    if s == tv[taken] {
                        assert(tv.take(taken + 1)[taken] == s);
                        assert(tv.take(taken + 1).contains(s));
                    } else {
                        let k = choose|k: int| 0 <= k < taken && #[trigger] tv.take(taken)[k] == s;
                        assert(tv.take(taken + 1)[k] == s);
                        assert(tv.take(taken + 1).contains(s));
                    }
                }
            }
            taken = taken + 1;
        }
    }
    proof {
        assert(tv.take(tv.len() as int) =~= tv);
    }
    let r = crate::graph::GraphNode { id, types: out, properties };
    r
}

/// Insert a finalized node into a vector kept strictly sorted by identity.
/// A node whose identity is already present would be dropped; the builder
/// never produces one.
#[verifier::loop_isolation(false)]
fn insert_node_sorted(out: &mut Vec<crate::graph::GraphNode>, node: crate::graph::GraphNode)
    requires
        crate::graph::sorted_unique(crate::graph::node_ids(
            old(out)@.map_values(|n: crate::graph::GraphNode| crate::graph::nview(n)),
        )),
    ensures
        crate::graph::sorted_unique(crate::graph::node_ids(
            final(out)@.map_values(|n: crate::graph::GraphNode| crate::graph::nview(n)),
        )),
        final(out)@.len() == old(out)@.len() + 1 || final(out)@.len() == old(out)@.len(),
        final(out)@.len() == old(out)@.len() + 1 ==> ({
            let nv = final(out)@.map_values(|n: crate::graph::GraphNode| crate::graph::nview(n));
            let ov = old(out)@.map_values(|n: crate::graph::GraphNode| crate::graph::nview(n));
            exists|p: int|
                0 <= p <= ov.len() && nv =~= ov.insert(p, crate::graph::nview(node))
        }),
        final(out)@.len() == old(out)@.len() ==> final(out)@ == old(out)@ && (exists|k: int|
            0 <= k < old(out)@.len() && crate::graph::nview(#[trigger] old(out)@[k]).id
                == crate::graph::nview(node).id),
{
    let ghost tv = crate::graph::nview(node).id;
    let ghost ov = old(out)@.map_values(|n: crate::graph::GraphNode| crate::graph::nview(n));
    let idc = crate::text::to_chars(node.id.as_str());
    let mut pos: usize = 0;
    while pos < out.len() && !crate::graph::lex_le_exec(
        idc.as_slice(),
        crate::text::to_chars(out[pos].id.as_str()).as_slice(),
    )
        invariant
            pos <= out@.len(),
            out@ == old(out)@,
            idc@ == tv,
            forall|k: int| 0 <= k < pos ==> !crate::graph::lex_le(tv, ov[k].id),
        decreases out@.len() - pos,
    {
        pos = pos + 1;
    }
    if pos < out.len() && out[pos].id.eq(&node.id) {
        proof {
            assert(crate::graph::nview(old(out)@[pos as int]).id == tv);
        }
        return ;
    }
    out.insert(pos, node);
    proof {
        let nv = out@.map_values(|n: crate::graph::GraphNode| crate::graph::nview(n));
        assert(nv =~= ov.insert(pos as int, crate::graph::nview(node)));
        ov.insert_ensures(pos as int, crate::graph::nview(node));
        let ids = crate::graph::node_ids(nv);
        let oids = crate::graph::node_ids(ov);
        assert(ids =~= oids.insert(pos as int, tv)) by {
            oids.insert_ensures(pos as int, tv);
        }
        if pos < ov.len() {
            assert(crate::graph::lex_le(tv, oids[pos as int]));
            assert(tv != oids[pos as int]);
        }
        assert forall|k: int| 0 <= k < pos implies !crate::graph::lex_le(
            tv,
            #[trigger] oids[k],
        ) by {
            assert(oids[k] == ov[k].id);
        }
        lemma_sorted_insert_ids(oids, ids, tv, pos as int);
    }
}


// ---------------------------------------------------------------------------
// Laws of property recording.
// ---------------------------------------------------------------------------

proof fn lemma_obj_index_push(props: Seq<(Seq<char>, JsonV)>, pred: Seq<char>, v: JsonV)
    requires
        obj_index(props, pred) == -1,
    ensures
        obj_index(props.push((pred, v)), pred) == props.len(),
    decreases props,
{
    if props.len() == 0 {
        assert(props.push((pred, v)).first() == (pred, v));
    } else {
        lemma_obj_index_push(props.drop_first(), pred, v);
        assert(props.push((pred, v)).drop_first() =~= props.drop_first().push((pred, v)));
    }
}

/// A property written once and then written again under the same predicate
/// becomes an array of exactly the two values, in encounter order. (A first
/// value that is itself an array instead absorbs the second value, so the law
/// speaks of non-array first values.)
pub proof fn lemma_property_written_twice(
    props: Seq<(Seq<char>, JsonV)>,
    pred: Seq<char>,
    v1: JsonV,
    v2: JsonV,
)
    requires
        obj_index(props, pred) == -1,
        !(v1 is Array),
    ensures
        upd_props(upd_props(props, pred, v1), pred, v2) == props.push(
            (pred, JsonV::Array(seq![v1, v2])),
        ),
{
    let p1 = upd_props(props, pred, v1);
    assert(p1 == props.push((pred, v1)));
    lemma_obj_index_push(props, pred, v1);
    let k = obj_index(p1, pred);
    assert(k == props.len());
    assert(p1[k].1 == v1);
    let p2 = upd_props(p1, pred, v2);
    assert(p2 =~= props.push((pred, JsonV::Array(seq![v1, v2]))));
}

} // verus!
