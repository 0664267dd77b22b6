//! Laws of the graph builder, stated over the walk itself.

use vstd::prelude::*;

use crate::builder::{sp_document, sp_node, sp_props, sp_value, sp_values, st_add_edge,
    st_insert_node, BState};
use crate::document::{ExpandedNode, ExpandedObject, NodeId};
use crate::graph::{EdgeV, NodeV};
use crate::json::JsonV;

verus! {

/// The empty builder state.
pub open spec fn empty_state() -> BState {
    BState {
        nodes: Seq::<NodeV>::empty(),
        edges: Seq::<EdgeV>::empty(),
        processing: Set::<Seq<char>>::empty(),
    }
}

/// A node with one forward property and nothing else. `s_id` and `s_pred`
/// are the strings the document holds for its identity and predicate.
pub open spec fn single_property_node(
    n: ExpandedNode,
    s_id: String,
    s_pred: String,
    child: ExpandedObject,
) -> bool {
    &&& n.id == Some(NodeId::Iri(s_id))
    &&& n.types@.len() == 0
    &&& n.graph@.len() == 0
    &&& n.included@.len() == 0
    &&& n.reverse@.len() == 0
    &&& n.properties@.len() == 1
    &&& n.properties@[0].0 == NodeId::Iri(s_pred)
    &&& n.properties@[0].1@.len() == 1
    &&& n.properties@[0].1@[0] == child
}

/// A bare reference: a node carrying only an identity.
pub open spec fn bare_reference(n: ExpandedNode, s_id: String) -> bool {
    &&& n.id == Some(NodeId::Iri(s_id))
    &&& n.types@.len() == 0
    &&& n.graph@.len() == 0
    &&& n.included@.len() == 0
    &&& n.reverse@.len() == 0
    &&& n.properties@.len() == 0
}

/// Building a document with a reference cycle terminates and produces
/// exactly two nodes joined by one edge in each direction: node `a` holds
/// node `b` under one predicate, `b` holds a bare reference back to `a`
/// under another, and the walk's processing guard cuts the cycle there.
pub proof fn cycle_pair_law(
    n_a: ExpandedNode,
    n_b: ExpandedNode,
    n_back: ExpandedNode,
    s_a: String,
    s_b: String,
    s_p: String,
    s_q: String,
    a: Seq<char>,
    b: Seq<char>,
    p: Seq<char>,
    q: Seq<char>,
)
    requires
        a != b,
        s_a@ == a,
        s_b@ == b,
        s_p@ == p,
        s_q@ == q,
        single_property_node(n_a, s_a, s_p, ExpandedObject::Node(n_b)),
        single_property_node(n_b, s_b, s_q, ExpandedObject::Node(n_back)),
        bare_reference(n_back, s_a),
    ensures
        ({
            let s = sp_document(
                empty_state(),
                seq![ExpandedObject::Node(n_a)],
                1,
            );
            &&& s.nodes.len() == 2
            &&& s.nodes[0].id == a
            &&& s.nodes[1].id == b
            &&& s.edges =~= seq![
                EdgeV { from: b, to: a, predicate: q },
                EdgeV { from: a, to: b, predicate: p },
            ]
            &&& s.processing =~= Set::<Seq<char>>::empty()
        }),
{
    let s0 = empty_state();
    let doc = seq![ExpandedObject::Node(n_a)];
    assert(sp_document(s0, doc, 1) == crate::builder::sp_object(sp_document(s0, doc, 0), doc[0]).0);
    assert(sp_document(s0, doc, 0) == s0);

    // entering node a
    let s1 = st_insert_node(s0, a);
    assert(crate::graph::node_index(s0.nodes, a) == -1);
    assert(s1.nodes =~= seq![
        NodeV { id: a, types: Seq::<Seq<char>>::empty(), props: Seq::<(Seq<char>, JsonV)>::empty() },
    ]);
    let s2 = BState { processing: s1.processing.insert(a), ..s1 };
    assert(crate::builder::sp_types(s2, a, n_a.types@, 0) == s2);
    assert(crate::builder::sp_graph(s2, a, n_a.graph@, 0) == s2);
    assert(crate::builder::sp_included(s2, a, n_a.included@, 0) == s2);
    assert(crate::builder::sp_reverse(s2, a, n_a.reverse@, 0) == s2);

    // its single property leads into node b
    let vals_a = n_a.properties@[0].1@;
    let r_a = sp_values(s2, a, p, vals_a, 1, Seq::<JsonV>::empty());
    assert(sp_values(s2, a, p, vals_a, 0, Seq::<JsonV>::empty()) == (s2, Seq::<JsonV>::empty()));
    assert(r_a == sp_value(s2, a, p, vals_a[0], Seq::<JsonV>::empty()));

    // entering node b
    let rb = sp_node(s2, n_b);
    let t1 = st_insert_node(s2, b);
    assert(crate::graph::node_index(s2.nodes, b) == -1) by {
        crate::graph::node_index_props(s2.nodes, b);
    }
    assert(t1.nodes =~= s2.nodes.push(
        NodeV { id: b, types: Seq::<Seq<char>>::empty(), props: Seq::<(Seq<char>, JsonV)>::empty() },
    ));
    assert(!t1.processing.contains(b));
    let t2 = BState { processing: t1.processing.insert(b), ..t1 };
    assert(crate::builder::sp_types(t2, b, n_b.types@, 0) == t2);
    assert(crate::builder::sp_graph(t2, b, n_b.graph@, 0) == t2);
    assert(crate::builder::sp_included(t2, b, n_b.included@, 0) == t2);
    assert(crate::builder::sp_reverse(t2, b, n_b.reverse@, 0) == t2);

    // b's property holds the bare reference back to a: the guard cuts here
    let vals_b = n_b.properties@[0].1@;
    assert(sp_values(t2, b, q, vals_b, 0, Seq::<JsonV>::empty()) == (t2, Seq::<JsonV>::empty()));
    let r_back = sp_node(t2, n_back);
    let u1 = st_insert_node(t2, a);
    assert(crate::graph::node_index(t2.nodes, a) == 0);
    assert(u1 == t2);
    assert(t2.processing.contains(a));
    assert(r_back == (t2, a));
    let r_b_vals = sp_values(t2, b, q, vals_b, 1, Seq::<JsonV>::empty());
    assert(vals_b[0] == ExpandedObject::Node(n_back));
    assert(sp_value(t2, b, q, vals_b[0], Seq::<JsonV>::empty()) == (
        st_add_edge(t2, b, a, q),
        Seq::<JsonV>::empty(),
    ));
    assert(r_b_vals == (st_add_edge(t2, b, a, q), Seq::<JsonV>::empty()));
    let t3 = st_add_edge(t2, b, a, q);
    assert(crate::builder::sp_add_all(t3, b, q, Seq::<JsonV>::empty(), 0) == t3);
    assert(crate::builder::sp_props(t2, b, n_b.properties@, 0) == t2);
    assert(crate::document::spec_id_string(n_b.properties@[0].0) == q);
    assert(sp_props(t2, b, n_b.properties@, 1) == t3);
    let t4 = BState { processing: t3.processing.remove(b), ..t3 };
    assert(rb == (t4, b));

    // back in node a: the edge to b, then the guard lifts
    let s3 = st_add_edge(t4, a, b, p);
    assert(vals_a[0] == ExpandedObject::Node(n_b));
    assert(sp_value(s2, a, p, vals_a[0], Seq::<JsonV>::empty()) == (
        s3,
        Seq::<JsonV>::empty(),
    ));
    assert(r_a == (s3, Seq::<JsonV>::empty()));
    assert(crate::builder::sp_add_all(s3, a, p, Seq::<JsonV>::empty(), 0) == s3);
    assert(crate::builder::sp_props(s2, a, n_a.properties@, 0) == s2);
    assert(crate::document::spec_id_string(n_a.properties@[0].0) == p);
    assert(sp_props(s2, a, n_a.properties@, 1) == s3);
    let s4 = BState { processing: s3.processing.remove(a), ..s3 };
    assert(sp_node(s0, n_a) == (s4, a));

    assert(s4.nodes.len() == 2);
    assert(s4.nodes[0].id == a);
    assert(s4.nodes[1].id == b);
    assert(s4.edges =~= seq![
        EdgeV { from: b, to: a, predicate: q },
        EdgeV { from: a, to: b, predicate: p },
    ]);
    assert(s4.processing =~= Set::<Seq<char>>::empty());
}


/// A document of bare named references, each holding only an identity.
pub open spec fn flat_named_doc(doc: Seq<ExpandedObject>, ids: Seq<(String, Seq<char>)>) -> bool {
    &&& doc.len() == ids.len()
    &&& forall|j: int| 0 <= j < doc.len() ==> ((#[trigger] doc[j]) matches ExpandedObject::Node(n)
        && bare_reference(n, ids[j].0) && ids[j].0@ == ids[j].1)
}

/// The distinct identities among the first `n`.
pub open spec fn distinct_ids(ids: Seq<(String, Seq<char>)>, n: int) -> Set<Seq<char>>
    decreases n,
{
    if n <= 0 || n > ids.len() {
        Set::<Seq<char>>::empty()
    } else {
        distinct_ids(ids, n - 1).insert(ids[n - 1].1)
    }
}

proof fn distinct_ids_finite(ids: Seq<(String, Seq<char>)>, n: int)
    ensures
        distinct_ids(ids, n).finite(),
    decreases n,
{
    if n > 0 && n <= ids.len() {
        distinct_ids_finite(ids, n - 1);
    }
}

/// Building a flat document of named references yields one node per distinct
/// identity: the node count is the size of the identity set, however often
/// an identity repeats.
pub proof fn flat_document_node_count(
    doc: Seq<ExpandedObject>,
    ids: Seq<(String, Seq<char>)>,
    n: int,
)
    requires
        flat_named_doc(doc, ids),
        0 <= n <= doc.len(),
    ensures
        ({
            let s = sp_document(empty_state(), doc, n);
            &&& s.nodes.len() == distinct_ids(ids, n).len()
            &&& (forall|x: Seq<char>| #[trigger] distinct_ids(ids, n).contains(x)
                <==> crate::graph::node_index(s.nodes, x) >= 0)
            &&& s.edges =~= Seq::<EdgeV>::empty()
            &&& s.processing =~= Set::<Seq<char>>::empty()
        }),
    decreases n,
{
    let s = sp_document(empty_state(), doc, n);
    if n == 0 {
        assert(distinct_ids(ids, 0) =~= Set::<Seq<char>>::empty());
        assert(distinct_ids(ids, 0).len() == 0);
        assert forall|x: Seq<char>| #[trigger] distinct_ids(ids, 0).contains(x) implies false by {}
        crate::graph::node_index_props(s.nodes, ids[0].1);
    } else {
        flat_document_node_count(doc, ids, n - 1);
        let prev = sp_document(empty_state(), doc, n - 1);
        let nd = doc[n - 1]->Node_0;
        let id = ids[n - 1].1;
        // one bare reference: insert the node, nothing else changes
        assert(crate::builder::spec_node_id(nd) == id);
        let s1 = st_insert_node(prev, id);
        assert(!s1.processing.contains(id));
        let s2 = BState { processing: s1.processing.insert(id), ..s1 };
        assert(crate::builder::sp_types(s2, id, nd.types@, 0) == s2);
        assert(crate::builder::sp_graph(s2, id, nd.graph@, 0) == s2);
        assert(crate::builder::sp_included(s2, id, nd.included@, 0) == s2);
        assert(crate::builder::sp_reverse(s2, id, nd.reverse@, 0) == s2);
        assert(crate::builder::sp_props(s2, id, nd.properties@, 0) == s2);
        let s3 = BState { processing: s2.processing.remove(id), ..s2 };
        assert(sp_node(prev, nd) == (s3, id));
        assert(s == s3) by {
            assert(sp_document(empty_state(), doc, n) == crate::builder::sp_object(
                prev,
                doc[n - 1],
            ).0);
        }
        assert(s3.processing =~= prev.processing);
        crate::graph::node_index_props(prev.nodes, id);
        if crate::graph::node_index(prev.nodes, id) >= 0 {
            // the identity is already there: nothing is added
            assert(s3.nodes == prev.nodes);
            assert(distinct_ids(ids, n) =~= distinct_ids(ids, n - 1));
        } else {
            // a fresh identity: one more node
            assert(s3.nodes =~= prev.nodes.push(
                NodeV {
                    id: id,
                    types: Seq::<Seq<char>>::empty(),
                    props: Seq::<(Seq<char>, JsonV)>::empty(),
                },
            ));
            assert(!distinct_ids(ids, n - 1).contains(id));
            assert(distinct_ids(ids, n).len() == distinct_ids(ids, n - 1).len() + 1) by {
                distinct_ids_finite(ids, n - 1);
                lemma_set_insert_len(distinct_ids(ids, n - 1), id);
            }
            assert forall|x: Seq<char>| #[trigger] distinct_ids(ids, n).contains(x)
                implies crate::graph::node_index(s3.nodes, x) >= 0 by {
                crate::graph::node_index_props(s3.nodes, x);
                if x == id {
                    assert(s3.nodes[s3.nodes.len() - 1].id == id);
                    if crate::graph::node_index(s3.nodes, x) == -1 {
                        assert(false);
                    }
                } else {
                    assert(distinct_ids(ids, n - 1).contains(x));
                    let i = crate::graph::node_index(prev.nodes, x);
                    crate::graph::node_index_props(prev.nodes, x);
                    assert(s3.nodes[i].id == x);
                    if crate::graph::node_index(s3.nodes, x) == -1 {
                        assert(false);
                    }
                }
            }
            assert forall|x: Seq<char>|
                crate::graph::node_index(#[trigger] s3.nodes, x) >= 0 implies distinct_ids(
                ids,
                n,
            ).contains(x) by {
                crate::graph::node_index_props(s3.nodes, x);
                let i = crate::graph::node_index(s3.nodes, x);
                if i < s3.nodes.len() - 1 {
                    assert(prev.nodes[i].id == x);
                    crate::graph::node_index_props(prev.nodes, x);
                    if crate::graph::node_index(prev.nodes, x) == -1 {
                        assert(false);
                    }
                    assert(distinct_ids(ids, n - 1).contains(x));
                } else {
                    assert(x == id);
                }
            }
        }
    }
}

proof fn lemma_set_insert_len(s: Set<Seq<char>>, x: Seq<char>)
    requires
        s.finite(),
        !s.contains(x),
    ensures
        s.insert(x).len() == s.len() + 1,
{
}

} // verus!
