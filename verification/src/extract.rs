//! Pattern extractors: read-only traversals over the finished graph that
//! recognize products and their variants, organizations, breadcrumbs, and a
//! generic fallback, together with the adjacency index they all share.

use vstd::prelude::*;

use crate::graph::{eview, gview, nview, EdgeV, GraphEdge, GraphNode, KnowledgeGraph, NodeV};
use crate::iri::{spec_shorten, spec_tokens};
use crate::json::{jview, obj_index, obj_index_props, JsonV, JsonValue};
use crate::jsontext::spec_json_display;
use crate::text::{spec_ends_with, spec_lower, spec_starts_with};

verus! {

// ---------------------------------------------------------------------------
// Adjacency index: edges grouped by their `from` endpoint, order kept.
// ---------------------------------------------------------------------------

/// The views of a vector of edges.
pub open spec fn edges_view(s: Seq<GraphEdge>) -> Seq<EdgeV> {
    s.map_values(|e: GraphEdge| eview(e))
}

/// The outgoing edges of `id`, in insertion order.
pub open spec fn spec_outgoing(edges: Seq<EdgeV>, id: Seq<char>) -> Seq<EdgeV> {
    edges.filter(|e: EdgeV| e.from == id)
}

/// The adjacency index over a finished graph.
pub struct Adjacency {
    pub edges: Vec<GraphEdge>,
}

impl Adjacency {
    /// Build the index from a graph's edge list.
    pub fn index(graph: &KnowledgeGraph) -> (r: Adjacency)
        ensures
            edges_view(r.edges@) == gview(*graph).edges,
    {
        let mut edges: Vec<GraphEdge> = Vec::new();
        let mut i: usize = 0;
        while i < graph.edges.len()
            invariant
                i <= graph.edges@.len(),
                edges@.len() == i,
                forall|j: int| 0 <= j < i ==> eview(#[trigger] edges@[j]) == eview(
                    graph.edges@[j],
                ),
            decreases graph.edges@.len() - i,
        {
            edges.push(graph.edges[i].clone());
            i = i + 1;
        }
        let r = Adjacency { edges };
        proof {
            assert(edges_view(r.edges@) =~= gview(*graph).edges);
        }
        r
    }

    /// The outgoing edges of one node, in insertion order.
    pub fn outgoing(&self, id: &str) -> (r: Vec<GraphEdge>)
        ensures
            edges_view(r@) == spec_outgoing(edges_view(self.edges@), id@),
    {
        let ghost ev = edges_view(self.edges@);
        let mut r: Vec<GraphEdge> = Vec::new();
        let mut i: usize = 0;
        proof {
            assert(ev.take(0).filter(|e: EdgeV| e.from == id@) =~= Seq::<EdgeV>::empty());
            assert(edges_view(r@) =~= Seq::<EdgeV>::empty());
        }
        while i < self.edges.len()
            invariant
                i <= self.edges@.len(),
                ev == edges_view(self.edges@),
                edges_view(r@) == ev.take(i as int).filter(|e: EdgeV| e.from == id@),
            decreases self.edges@.len() - i,
        {
            let ghost prev = r@;
            if crate::text::chars_eq(
                crate::text::to_chars(self.edges[i].from.as_str()).as_slice(),
                crate::text::to_chars(id).as_slice(),
            ) {
                r.push(self.edges[i].clone());
                proof {
                    assert(edges_view(r@) =~= edges_view(prev).push(
                        eview(self.edges@[i as int]),
                    ));
                }
            }
            proof {
                assert(ev.take(i + 1).drop_last() =~= ev.take(i as int));
                assert(ev.take(i + 1).last() == ev[i as int]);
                reveal_with_fuel(Seq::filter, 2);
                assert(ev.take(i + 1).filter(|e: EdgeV| e.from == id@) == if ev[i as int].from
                    == id@ {
                    ev.take(i as int).filter(|e: EdgeV| e.from == id@).push(ev[i as int])
                } else {
                    ev.take(i as int).filter(|e: EdgeV| e.from == id@)
                });
            }
            i = i + 1;
        }
        proof {
            assert(ev.take(ev.len() as int) =~= ev);
        }
        r
    }
}

// ---------------------------------------------------------------------------
// Property lookup, as every extractor reads node properties.
// ---------------------------------------------------------------------------

/// Resolve a property key: the key itself; then with `https`/`http`
/// exchanged for schema.org keys; then its bare trailing segment.
pub open spec fn spec_resolve(props: Seq<(Seq<char>, JsonV)>, key: Seq<char>) -> Option<JsonV> {
    if obj_index(props, key) >= 0 {
        Some(props[obj_index(props, key)].1)
    } else {
        let swapped = spec_swap_scheme(key);
        if obj_index(props, swapped) >= 0 {
            Some(props[obj_index(props, swapped)].1)
        } else {
            let short = spec_after_slash(key);
            if obj_index(props, short) >= 0 {
                Some(props[obj_index(props, short)].1)
            } else {
                None
            }
        }
    }
}

/// `https://schema.org/...` with `http`, or the reverse; other keys stay.
pub open spec fn spec_swap_scheme(key: Seq<char>) -> Seq<char> {
    if spec_starts_with(key, "https://schema.org/"@) {
        "http"@ + key.skip(5)
    } else if spec_starts_with(key, "http://schema.org/"@) {
        "https"@ + key.skip(4)
    } else {
        key
    }
}

/// Everything after the last `/`, or the whole key.
pub open spec fn spec_after_slash(key: Seq<char>) -> Seq<char>
    decreases key.len(),
{
    if key.len() == 0 {
        key
    } else if key.last() == '/' {
        Seq::<char>::empty()
    } else {
        spec_after_slash(key.drop_last()).push(key.last())
    }
}

fn swap_scheme(key: &[char]) -> (r: Vec<char>)
    ensures
        r@ == spec_swap_scheme(key@),
{
    let https = crate::text::to_chars("https://schema.org/");
    let http = crate::text::to_chars("http://schema.org/");
    if crate::text::starts_with_chars(key, https.as_slice()) {
        proof {
            reveal_strlit("https://schema.org/");
            reveal_strlit("http");
            assert(key@.len() >= 19);
        }
        let mut out = crate::text::to_chars("http");
        let mut i: usize = 5;
        proof {
            assert(out@ =~= "http"@ + key@.subrange(5, 5));
        }
        while i < key.len()
            invariant
                5 <= i <= key@.len(),
                key@.len() >= 19,
                out@ == "http"@ + key@.subrange(5, i as int),
            decreases key@.len() - i,
        {
            out.push(key[i]);
            assert(key@.subrange(5, i + 1) =~= key@.subrange(5, i as int).push(key@[i as int]));
            i = i + 1;
        }
        proof {
            assert(key@.subrange(5, key@.len() as int) =~= key@.skip(5));
        }
        out
    } else if crate::text::starts_with_chars(key, http.as_slice()) {
        proof {
            reveal_strlit("http://schema.org/");
            reveal_strlit("https");
            assert(key@.len() >= 18);
        }
        let mut out = crate::text::to_chars("https");
        let mut i: usize = 4;
        proof {
            assert(out@ =~= "https"@ + key@.subrange(4, 4));
        }
        while i < key.len()
            invariant
                4 <= i <= key@.len(),
                key@.len() >= 18,
                out@ == "https"@ + key@.subrange(4, i as int),
            decreases key@.len() - i,
        {
            out.push(key[i]);
            assert(key@.subrange(4, i + 1) =~= key@.subrange(4, i as int).push(key@[i as int]));
            i = i + 1;
        }
        proof {
            assert(key@.subrange(4, key@.len() as int) =~= key@.skip(4));
        }
        out
    } else {
        crate::text::copy_chars(key)
    }
}

fn after_slash(key: &[char]) -> (r: Vec<char>)
    ensures
        r@ == spec_after_slash(key@),
{
    let seps: [char; 1] = ['/'];
    let n = key.len();
    let cut = crate::text::rfind_any(key, seps.as_slice());
    let start: usize = match cut {
        Some(i) => {
            assert(i < n);
            i + 1
        },
        None => 0,
    };
    let mut out: Vec<char> = Vec::new();
    let mut i = start;
    while i < key.len()
        invariant
            start <= i <= key@.len(),
            out@ == key@.subrange(start as int, i as int),
        decreases key@.len() - i,
    {
        out.push(key[i]);
        assert(key@.subrange(start as int, i + 1) =~= key@.subrange(start as int, i as int).push(
            key@[i as int],
        ));
        i = i + 1;
    }
    proof {
        lemma_after_slash_suffix(key@, start as int);
    }
    out
}

proof fn lemma_after_slash_suffix(s: Seq<char>, start: int)
    requires
        0 <= start <= s.len(),
        start > 0 ==> s[start - 1] == '/',
        forall|j: int| start <= j < s.len() ==> s[j] != '/',
    ensures
        spec_after_slash(s) == s.subrange(start, s.len() as int),
    decreases s.len() - start,
{
    if s.len() == start {
        if start == 0 {
            assert(s.subrange(0, 0) =~= s);
        } else {
            assert(spec_after_slash(s) =~= s.subrange(start, s.len() as int));
        }
    } else {
        let pre = s.drop_last();
        lemma_after_slash_suffix(pre, start);
        assert(pre.subrange(start, pre.len() as int) =~= s.subrange(
            start,
            s.len() as int,
        ).drop_last());
        assert(spec_after_slash(s) =~= s.subrange(start, s.len() as int));
    }
}

/// Look one key up in a node's properties, with the scheme swap and the bare
/// name as fallbacks.
pub fn resolve_node_property<'a>(node: &'a GraphNode, key: &str) -> (r: Option<&'a JsonValue>)
    ensures
        match r {
            Some(v) => spec_resolve(nview(*node).props, key@) == Some(jview(*v)),
            None => spec_resolve(nview(*node).props, key@) is None,
        },
{
    let kc = crate::text::to_chars(key);
    proof {
        obj_index_props(nview(*node).props, key@);
    }
    match props_find_str(&node.properties, kc.as_slice()) {
        Some(i) => {
            proof {
                assert(nview(*node).props[i as int].1 == jview(node.properties@[i as int].1));
            }
            return Some(&node.properties[i].1);
        },
        None => {},
    }
    let swapped = swap_scheme(kc.as_slice());
    proof {
        obj_index_props(nview(*node).props, spec_swap_scheme(key@));
    }
    match props_find_str(&node.properties, swapped.as_slice()) {
        Some(i) => {
            proof {
                assert(nview(*node).props[i as int].1 == jview(node.properties@[i as int].1));
            }
            return Some(&node.properties[i].1);
        },
        None => {},
    }
    let short = after_slash(kc.as_slice());
    proof {
        obj_index_props(nview(*node).props, spec_after_slash(key@));
    }
    match props_find_str(&node.properties, short.as_slice()) {
        Some(i) => {
            proof {
                assert(nview(*node).props[i as int].1 == jview(node.properties@[i as int].1));
            }
            return Some(&node.properties[i].1);
        },
        None => {},
    }
    None
}

/// First property entry whose key reads as `key`.
fn props_find_str(props: &Vec<(String, JsonValue)>, key: &[char]) -> (r: Option<usize>)
    ensures
        match r {
            Some(i) => i < props@.len() && i == obj_index(crate::graph::pview(props@), key@),
            None => obj_index(crate::graph::pview(props@), key@) == -1,
        },
{
    let ghost pv = crate::graph::pview(props@);
    proof {
        assert(pv.skip(0) =~= pv);
    }
    let mut i: usize = 0;
    while i < props.len()
        invariant
            i <= props@.len(),
            pv == crate::graph::pview(props@),
            pv.len() == props@.len(),
            obj_index(pv, key@) == if obj_index(pv.skip(i as int), key@) >= 0 {
                i + obj_index(pv.skip(i as int), key@)
            } else {
                -1
            },
        decreases props@.len() - i,
    {
        proof {
            obj_index_props(pv.skip(i as int), key@);
            assert(pv.skip(i as int).first() == pv[i as int]);
        }
        if crate::text::chars_eq(crate::text::to_chars(props[i].0.as_str()).as_slice(), key) {
            return Some(i);
        }
        proof {
            assert(pv.skip(i as int).drop_first() =~= pv.skip(i + 1));
        }
        i = i + 1;
    }
    proof {
        assert(pv.skip(pv.len() as int) =~= Seq::<(Seq<char>, JsonV)>::empty());
    }
    None
}

/// The scalar text of the first key that resolves to an extractable value.
pub open spec fn spec_property_text(props: Seq<(Seq<char>, JsonV)>, keys: Seq<Seq<char>>) -> Option<
    Seq<char>,
>
    decreases keys.len(),
{
    if keys.len() == 0 {
        None
    } else {
        let v = spec_resolve(props, keys.first());
        match v {
            Some(v) => match crate::json::spec_json_to_string(v) {
                Some(t) => Some(t),
                None => spec_property_text(props, keys.drop_first()),
            },
            None => spec_property_text(props, keys.drop_first()),
        }
    }
}

/// The first scalar text among the given property keys.
pub fn property_text(node: &GraphNode, keys: &[&str]) -> (r: Option<String>)
    ensures
        ({
            let kv = keys@.map_values(|k: &str| k@);
            match r {
                Some(t) => spec_property_text(nview(*node).props, kv) == Some(t@),
                None => spec_property_text(nview(*node).props, kv) is None,
            }
        }),
{
    let ghost kv = keys@.map_values(|k: &str| k@);
    proof {
        assert(kv.skip(0) =~= kv);
    }
    let mut i: usize = 0;
    while i < keys.len()
        invariant
            i <= keys@.len(),
            kv == keys@.map_values(|k: &str| k@),
            spec_property_text(nview(*node).props, kv) == spec_property_text(
                nview(*node).props,
                kv.skip(i as int),
            ),
        decreases keys@.len() - i,
    {
        proof {
            assert(kv.skip(i as int).first() == kv[i as int]);
            assert(kv.skip(i as int).drop_first() =~= kv.skip(i + 1));
        }
        let v = resolve_node_property(node, keys[i]);
        match v {
            Some(v) => {
                let t = crate::json::json_value_to_string(v);
                match t {
                    Some(t) => {
                        return Some(crate::text::from_chars(&t));
                    },
                    None => {},
                }
            },
            None => {},
        }
        i = i + 1;
    }
    proof {
        assert(kv.skip(kv.len() as int) =~= Seq::<Seq<char>>::empty());
    }
    None
}

/// Display forms of the values under the first key that resolves: an array
/// yields one entry per element, anything else a single entry.
pub open spec fn spec_property_list(props: Seq<(Seq<char>, JsonV)>, keys: Seq<Seq<char>>) -> Seq<
    Seq<char>,
>
    decreases keys.len(),
{
    if keys.len() == 0 {
        Seq::<Seq<char>>::empty()
    } else {
        match spec_resolve(props, keys.first()) {
            Some(v) => match v {
                JsonV::Array(items) => items.map_values(|x: JsonV| spec_json_display(x)),
                _ => seq![spec_json_display(v)],
            },
            None => spec_property_list(props, keys.drop_first()),
        }
    }
}

/// The values under the first key that resolves, as display text.
pub fn property_list(node: &GraphNode, keys: &[&str]) -> (r: Vec<String>)
    ensures
        r@.map_values(|t: String| t@) == spec_property_list(
            nview(*node).props,
            keys@.map_values(|k: &str| k@),
        ),
{
    let ghost kv = keys@.map_values(|k: &str| k@);
    proof {
        assert(kv.skip(0) =~= kv);
    }
    let mut i: usize = 0;
    while i < keys.len()
        invariant
            i <= keys@.len(),
            kv == keys@.map_values(|k: &str| k@),
            spec_property_list(nview(*node).props, kv) == spec_property_list(
                nview(*node).props,
                kv.skip(i as int),
            ),
        decreases keys@.len() - i,
    {
        proof {
            assert(kv.skip(i as int).first() == kv[i as int]);
            assert(kv.skip(i as int).drop_first() =~= kv.skip(i + 1));
        }
        let v = resolve_node_property(node, keys[i]);
        match v {
            Some(v) => {
                match v {
                    JsonValue::Array(items) => {
                        proof {
                            crate::json::jview_seq_len(items@);
                        }
                        let mut out: Vec<String> = Vec::new();
                        let mut k: usize = 0;
                        while k < items.len()
                            invariant
                                k <= items@.len(),
                                crate::json::jview_seq(items@).len() == items@.len(),
                                out@.map_values(|t: String| t@) =~= crate::json::jview_seq(
                                    items@,
                                ).take(k as int).map_values(|x: JsonV| spec_json_display(x)),
                            decreases items@.len() - k,
                        {
                            proof {
                                crate::json::jview_seq_index(items@, k as int);
                            }
                            let ghost prevm = out@.map_values(|t: String| t@);
                            let d = crate::jsontext::json_value_display(&items[k]);
                            out.push(crate::text::from_chars(&d));
                            proof {
                                assert(out@.map_values(|t: String| t@) =~= prevm.push(d@));
                                assert(crate::json::jview_seq(items@).take(k + 1)
                                    =~= crate::json::jview_seq(items@).take(k as int).push(
                                    crate::json::jview_seq(items@)[k as int],
                                ));
                                assert(out@.map_values(|t: String| t@)
                                    =~= crate::json::jview_seq(items@).take(k + 1).map_values(
                                    |x: JsonV| spec_json_display(x),
                                ));
                            }
                            k = k + 1;
                        }
                        proof {
                            assert(crate::json::jview_seq(items@).take(items@.len() as int)
                                =~= crate::json::jview_seq(items@));
                        }
                        return out;
                    },
                    _ => {
                        let d = crate::jsontext::json_value_display(v);
                        let mut out: Vec<String> = Vec::new();
                        out.push(crate::text::from_chars(&d));
                        proof {
                            assert(out@.map_values(|t: String| t@) =~= seq![
                                spec_json_display(jview(*v)),
                            ]);
                        }
                        return out;
                    },
                }
            },
            None => {},
        }
        i = i + 1;
    }
    proof {
        assert(kv.skip(kv.len() as int) =~= Seq::<Seq<char>>::empty());
    }
    Vec::new()
}


// ---------------------------------------------------------------------------
// Looking nodes up by identity.
// ---------------------------------------------------------------------------

/// Find the node with this identity.
pub fn find_node<'a>(graph: &'a KnowledgeGraph, id: &str) -> (r: Option<&'a GraphNode>)
    ensures
        match r {
            Some(n) => crate::graph::node_index(gview(*graph).nodes, id@) >= 0 && nview(*n)
                == gview(*graph).nodes[crate::graph::node_index(gview(*graph).nodes, id@)],
            None => crate::graph::node_index(gview(*graph).nodes, id@) == -1,
        },
{
    let ghost nv = gview(*graph).nodes;
    proof {
        assert(nv.skip(0) =~= nv);
    }
    let mut i: usize = 0;
    while i < graph.nodes.len()
        invariant
            i <= graph.nodes@.len(),
            nv == gview(*graph).nodes,
            nv.len() == graph.nodes@.len(),
            crate::graph::node_index(nv, id@) == if crate::graph::node_index(
                nv.skip(i as int),
                id@,
            ) >= 0 {
                i + crate::graph::node_index(nv.skip(i as int), id@)
            } else {
                -1
            },
        decreases graph.nodes@.len() - i,
    {
        proof {
            crate::graph::node_index_props(nv.skip(i as int), id@);
            assert(nv.skip(i as int).first() == nv[i as int]);
        }
        if crate::text::chars_eq(
            crate::text::to_chars(graph.nodes[i].id.as_str()).as_slice(),
            crate::text::to_chars(id).as_slice(),
        ) {
            return Some(&graph.nodes[i]);
        }
        proof {
            assert(nv.skip(i as int).drop_first() =~= nv.skip(i + 1));
        }
        i = i + 1;
    }
    proof {
        assert(nv.skip(nv.len() as int) =~= Seq::<NodeV>::empty());
    }
    None
}

/// The target of the first outgoing edge whose predicate ends with `name`.
pub open spec fn spec_first_edge_target(edges: Seq<EdgeV>, name: Seq<char>) -> Option<Seq<char>>
    decreases edges,
{
    if edges.len() == 0 {
        None
    } else if spec_ends_with(edges.first().predicate, name) {
        Some(edges.first().to)
    } else {
        spec_first_edge_target(edges.drop_first(), name)
    }
}

/// Follow the first edge out of this group whose predicate ends with `name`.
pub fn first_edge_target(out_edges: &Vec<GraphEdge>, name: &str) -> (r: Option<String>)
    ensures
        ({
            let ev = out_edges@.map_values(|e: GraphEdge| eview(e));
            match r {
                Some(t) => spec_first_edge_target(ev, name@) == Some(t@),
                None => spec_first_edge_target(ev, name@) is None,
            }
        }),
{
    let ghost ev = out_edges@.map_values(|e: GraphEdge| eview(e));
    proof {
        assert(ev.skip(0) =~= ev);
    }
    let mut i: usize = 0;
    while i < out_edges.len()
        invariant
            i <= out_edges@.len(),
            ev == out_edges@.map_values(|e: GraphEdge| eview(e)),
            ev.len() == out_edges@.len(),
            spec_first_edge_target(ev, name@) == spec_first_edge_target(
                ev.skip(i as int),
                name@,
            ),
        decreases out_edges@.len() - i,
    {
        proof {
            assert(ev.skip(i as int).first() == ev[i as int]);
            assert(ev.skip(i as int).drop_first() =~= ev.skip(i + 1));
        }
        if crate::iri::predicate_matches(out_edges[i].predicate.as_str(), name) {
            return Some(out_edges[i].to.clone());
        }
        i = i + 1;
    }
    proof {
        assert(ev.skip(ev.len() as int) =~= Seq::<EdgeV>::empty());
    }
    None
}

// ---------------------------------------------------------------------------
// Offers: price, currency and availability of a variant.
// ---------------------------------------------------------------------------

/// What extracting an offer yields: the display price, the parsed price in
/// millionths, the currency code, and the availability short name.
pub struct OfferInfo {
    pub price_display: Option<String>,
    pub price_micros: Option<i64>,
    pub price_currency: Option<String>,
    pub availability: Option<String>,
}

/// The keys under which each offer field is read.
pub open spec fn price_keys() -> Seq<Seq<char>> {
    seq!["https://schema.org/price"@, "http://schema.org/price"@, "price"@]
}

pub open spec fn currency_keys() -> Seq<Seq<char>> {
    seq!["https://schema.org/priceCurrency"@, "http://schema.org/priceCurrency"@, "priceCurrency"@]
}

pub open spec fn availability_keys() -> Seq<Seq<char>> {
    seq!["https://schema.org/availability"@, "http://schema.org/availability"@, "availability"@]
}

/// The offer fields read off a node with properties `props`: the parsed
/// price in millionths when the price text parses, the currency text, the
/// availability shortened to its trailing segment, and the display price
/// (the formatted price when the text parses, the verbatim text when not).
pub open spec fn offer_fields_ok(r: OfferInfo, props: Seq<(Seq<char>, JsonV)>) -> bool {
    let raw = spec_property_text(props, price_keys());
    let cur = spec_property_text(props, currency_keys());
    &&& (match r.price_micros {
        Some(v) => raw is Some && crate::price::spec_parse_price(raw->Some_0) == Some(v as int),
        None => raw is Some ==> crate::price::spec_parse_price(raw->Some_0) is None,
    })
    &&& (match r.price_currency {
        Some(c) => cur == Some(c@),
        None => cur is None,
    })
    &&& (match r.availability {
        Some(a) => raw_shortens_to(props, a@),
        None => spec_property_text(props, availability_keys()) is None,
    })
    &&& (match r.price_display {
        Some(d) => raw matches Some(rawtext) && (match crate::price::spec_parse_price(rawtext) {
            Some(v) => d@ == spec_format_price(v, cur),
            None => d@ == rawtext,
        }),
        None => raw is None,
    })
}

/// The availability text exists and shortens to `a`.
pub open spec fn raw_shortens_to(props: Seq<(Seq<char>, JsonV)>, a: Seq<char>) -> bool {
    exists|s: Seq<char>|
        spec_property_text(props, availability_keys()) == Some(s) && a == spec_shorten(s)
}

/// Read one offer node: its price text and numeric value, its currency, and
/// its availability shortened to the trailing segment of its IRI.
pub fn read_offer_fields(offer: &GraphNode) -> (r: OfferInfo)
    ensures
        offer_fields_ok(r, nview(*offer).props),
{
    let price_raw = property_text(
        offer,
        &["https://schema.org/price", "http://schema.org/price", "price"],
    );
    proof {
        assert(
            seq!["https://schema.org/price", "http://schema.org/price", "price"].map_values(
                |k: &str| k@,
            ) =~= price_keys());
        assert(
            seq![
                "https://schema.org/priceCurrency",
                "http://schema.org/priceCurrency",
                "priceCurrency",
            ].map_values(|k: &str| k@) =~= currency_keys());
        assert(
            seq![
                "https://schema.org/availability",
                "http://schema.org/availability",
                "availability",
            ].map_values(|k: &str| k@) =~= availability_keys());
    }
    let currency = property_text(
        offer,
        &[
            "https://schema.org/priceCurrency",
            "http://schema.org/priceCurrency",
            "priceCurrency",
        ],
    );
    let availability_raw = property_text(
        offer,
        &[
            "https://schema.org/availability",
            "http://schema.org/availability",
            "availability",
        ],
    );
    let availability = match &availability_raw {
        Some(a) => Some(crate::iri::shorten_iri(a.as_str())),
        None => None,
    };
    let (price_micros, price_display) = match &price_raw {
        Some(raw) => {
            let parsed = crate::price::parse_price(raw.as_str());
            match parsed {
                Some(v) => {
                    let shown = format_price(v, &currency);
                    (Some(v), Some(shown))
                },
                None => (None, Some(raw.clone())),
            }
        },
        None => (None, None),
    };
    OfferInfo { price_display, price_micros, price_currency: currency, availability }
}

/// A price with its currency: the known symbols, or the ISO code appended;
/// no decimals when the value is integral to within a ten-thousandth, else
/// two.
pub open spec fn spec_format_price(micros: int, currency: Option<Seq<char>>) -> Seq<char> {
    let decimals: int = if crate::price::spec_is_integral(micros) {
        0
    } else {
        2
    };
    spec_price_with_currency(micros, currency, decimals)
}

pub open spec fn spec_price_with_currency(
    micros: int,
    currency: Option<Seq<char>>,
    decimals: int,
) -> Seq<char> {
    let number = crate::price::spec_price_number(micros, decimals);
    match currency {
        Some(code) => match spec_currency_symbol(code) {
            Some(sym) => sym + number,
            None => number + seq![' '] + code,
        },
        None => number,
    }
}

/// The symbol table of the renderer.
pub open spec fn spec_currency_symbol(code: Seq<char>) -> Option<Seq<char>> {
    if code == "EUR"@ {
        Some("\u{20ac}"@)
    } else if code == "USD"@ {
        Some("$"@)
    } else if code == "GBP"@ {
        Some("\u{a3}"@)
    } else if code == "JPY"@ {
        Some("\u{a5}"@)
    } else {
        None
    }
}

pub fn currency_symbol(code: &str) -> (r: Option<&'static str>)
    ensures
        match r {
            Some(s) => spec_currency_symbol(code@) == Some(s@),
            None => spec_currency_symbol(code@) is None,
        },
{
    let c = crate::text::to_chars(code);
    if crate::text::chars_eq(c.as_slice(), crate::text::to_chars("EUR").as_slice()) {
        Some("\u{20ac}")
    } else if crate::text::chars_eq(c.as_slice(), crate::text::to_chars("USD").as_slice()) {
        Some("$")
    } else if crate::text::chars_eq(c.as_slice(), crate::text::to_chars("GBP").as_slice()) {
        Some("\u{a3}")
    } else if crate::text::chars_eq(c.as_slice(), crate::text::to_chars("JPY").as_slice()) {
        Some("\u{a5}")
    } else {
        None
    }
}

/// Format a price, zero decimals when integral, else two.
pub fn format_price(micros: i64, currency: &Option<String>) -> (r: String)
    requires
        -0x4000000000000000 < micros < 0x4000000000000000,
    ensures
        r@ == spec_format_price(
            micros as int,
            match currency {
                Some(c) => Some(c@),
                None => None,
            },
        ),
{
    let decimals: usize = if crate::price::price_is_integral(micros) {
        0
    } else {
        2
    };
    format_price_with_precision(micros, currency, decimals)
}

/// Format a price with a fixed number of decimals (zero or two).
pub fn format_price_with_precision(micros: i64, currency: &Option<String>, decimals: usize) -> (r:
    String)
    requires
        decimals == 0 || decimals == 2,
        -0x4000000000000000 < micros < 0x4000000000000000,
    ensures
        r@ == spec_price_with_currency(
            micros as int,
            match currency {
                Some(c) => Some(c@),
                None => None,
            },
            decimals as int,
        ),
{
    let number = crate::price::format_price_number(micros, decimals);
    match currency {
        Some(code) => {
            let sym = currency_symbol(code.as_str());
            match sym {
                Some(sym) => {
                    let mut out = crate::text::to_chars(sym);
                    crate::text::push_all(&mut out, number.as_slice());
                    crate::text::from_chars(&out)
                },
                None => {
                    let mut out = number;
                    out.push(' ');
                    crate::text::push_str_chars(&mut out, code.as_str());
                    crate::text::from_chars(&out)
                },
            }
        },
        None => crate::text::from_chars(&number),
    }
}

/// The rendered price range: one price when the ends agree to within a
/// ten-thousandth, otherwise both, two decimals each.
pub open spec fn spec_price_range(min: int, max: int, currency: Option<Seq<char>>) -> Seq<char> {
    if (if min - max < 0 {
        max - min
    } else {
        min - max
    }) < 100 {
        spec_price_with_currency(min, currency, 2)
    } else {
        spec_price_with_currency(min, currency, 2) + " \u{2013} "@ + spec_price_with_currency(
            max,
            currency,
            2,
        )
    }
}

pub fn format_price_range(min: i64, max: i64, currency: &Option<String>) -> (r: String)
    requires
        -0x4000000000000000 < min < 0x4000000000000000,
        -0x4000000000000000 < max < 0x4000000000000000,
    ensures
        r@ == spec_price_range(
            min as int,
            max as int,
            match currency {
                Some(c) => Some(c@),
                None => None,
            },
        ),
{
    let diff: i64 = if min - max < 0 {
        max - min
    } else {
        min - max
    };
    if diff < 100 {
        format_price_with_precision(min, currency, 2)
    } else {
        let a = format_price_with_precision(min, currency, 2);
        let b = format_price_with_precision(max, currency, 2);
        let mut out = crate::text::to_chars(a.as_str());
        crate::text::push_str_chars(&mut out, " \u{2013} ");
        crate::text::push_str_chars(&mut out, b.as_str());
        crate::text::from_chars(&out)
    }
}


/// Index in `nodes` of the target of the first `offers` edge whose target
/// exists and is typed `Offer`; `-1` when there is none.
pub open spec fn spec_first_offer(out: Seq<EdgeV>, nodes: Seq<NodeV>) -> int
    decreases out,
{
    if out.len() == 0 {
        -1
    } else {
        let k = crate::graph::node_index(nodes, out.first().to);
        if spec_ends_with(out.first().predicate, "offers"@) && k >= 0 && crate::iri::spec_has_type(
            nodes[k].types,
            "Offer"@,
        ) {
            k
        } else {
            spec_first_offer(out.drop_first(), nodes)
        }
    }
}

/// What `extract_offer` returns: the fields of the first `offers`-edge
/// target typed `Offer`, or nothing when no such target exists.
pub open spec fn extract_offer_post(
    r: Option<OfferInfo>,
    adjacency: Adjacency,
    product: GraphNode,
    graph: KnowledgeGraph,
) -> bool {
    let out = spec_outgoing(edges_view(adjacency.edges@), nview(product).id);
    let nodes = gview(graph).nodes;
    match r {
        Some(info) => spec_first_offer(out, nodes) >= 0 && offer_fields_ok(
            info,
            nodes[spec_first_offer(out, nodes)].props,
        ),
        None => spec_first_offer(out, nodes) == -1,
    }
}

/// Follow the `offers` edges of a product to the first target typed `Offer`
/// and read its fields; nothing when no such target exists.
#[verifier::loop_isolation(false)]
pub fn extract_offer(
    product: &GraphNode,
    adjacency: &Adjacency,
    graph: &KnowledgeGraph,
) -> (r: Option<OfferInfo>)
    ensures
        extract_offer_post(r, *adjacency, *product, *graph),
{
    let out_edges = adjacency.outgoing(product.id.as_str());
    let ghost out = spec_outgoing(edges_view(adjacency.edges@), nview(*product).id);
    let ghost nodes = gview(*graph).nodes;
    proof {
        assert(out.skip(0) =~= out);
    }
    let mut i: usize = 0;
    while i < out_edges.len()
        invariant
            i <= out_edges@.len(),
            out == edges_view(out_edges@),
            out.len() == out_edges@.len(),
            nodes == gview(*graph).nodes,
            spec_first_offer(out, nodes) == spec_first_offer(out.skip(i as int), nodes),
        decreases out_edges@.len() - i,
    {
        proof {
            assert(out.skip(i as int).first() == out[i as int]);
            assert(out.skip(i as int).drop_first() =~= out.skip(i + 1));
        }
        if crate::iri::predicate_matches(out_edges[i].predicate.as_str(), "offers") {
            let target = find_node(graph, out_edges[i].to.as_str());
            match target {
                Some(offer_node) => {
                    proof {
                        assert(out[i as int].to == out_edges@[i as int].to@);
                        assert(nview(*offer_node) == nodes[crate::graph::node_index(
                            nodes,
                            out[i as int].to,
                        )]);
                    }
                    if crate::iri::has_schema_type(offer_node, "Offer") {
                        proof {
                            assert(crate::graph::node_index(nodes, out[i as int].to) >= 0);
                            assert(spec_first_offer(out.skip(i as int), nodes)
                                == crate::graph::node_index(nodes, out[i as int].to));
                        }
                        let info = read_offer_fields(offer_node);
                        proof {
                            let k = crate::graph::node_index(nodes, out[i as int].to);
                            assert(nodes[k].props == nview(*offer_node).props);
                            assert(offer_fields_ok(info, nodes[k].props));
                            assert(spec_first_offer(out, nodes) == k);
                            assert(extract_offer_post(
                                Some(info),
                                *adjacency,
                                *product,
                                *graph,
                            ));
                        }
                        return Some(info);
                    }
                },
                None => {},
            }
        }
        i = i + 1;
    }
    proof {
        assert(out.skip(out.len() as int).len() == 0);
        assert(extract_offer_post(None, *adjacency, *product, *graph));
    }
    None
}

// ---------------------------------------------------------------------------
// Common against varying variant properties.
// ---------------------------------------------------------------------------


/// Whether two string vectors read the same, element for element.
pub fn string_vecs_eq(a: &Vec<String>, b: &Vec<String>) -> (r: bool)
    ensures
        r == (a@.map_values(|s: String| s@) == b@.map_values(|s: String| s@)),
{
    let ghost av = a@.map_values(|s: String| s@);
    let ghost bv = b@.map_values(|s: String| s@);
    if a.len() != b.len() {
        proof {
            assert(av.len() != bv.len());
        }
        return false;
    }
    let mut i: usize = 0;
    while i < a.len()
        invariant
            i <= a@.len(),
            a@.len() == b@.len(),
            av == a@.map_values(|s: String| s@),
            bv == b@.map_values(|s: String| s@),
            forall|j: int| 0 <= j < i ==> av[j] == bv[j],
        decreases a@.len() - i,
    {
        if !a[i].eq(&b[i]) {
            proof {
                assert(av[i as int] != bv[i as int]);
            }
            return false;
        }
        i = i + 1;
    }
    proof {
        assert(av =~= bv);
    }
    true
}

/// A property varies when one of the `variesBy` entries matches it: exactly
/// (case-insensitively), or a single-token entry occurs among its tokens, or
/// a multi-token entry's tokens equal its tokens.
pub open spec fn spec_is_varying(varies_by: Seq<Seq<char>>, prop: Seq<char>) -> bool {
    exists|i: int|
        0 <= i < varies_by.len() && spec_entry_matches(#[trigger] varies_by[i], prop)
}

pub open spec fn spec_entry_matches(entry: Seq<char>, prop: Seq<char>) -> bool {
    let vb = spec_lower(entry);
    let vb_tokens = spec_tokens(entry);
    let prop_tokens = spec_tokens(prop);
    ||| vb == spec_lower(prop)
    ||| (vb_tokens.len() == 1 && prop_tokens.contains(vb_tokens[0]))
    ||| (vb_tokens.len() > 1 && vb_tokens == prop_tokens)
}

/// Classify one property name against the `variesBy` list.
pub fn is_varying(varies_by: &Vec<String>, prop: &str) -> (r: bool)
    ensures
        r == spec_is_varying(varies_by@.map_values(|s: String| s@), prop@),
{
    let ghost vb = varies_by@.map_values(|s: String| s@);
    let prop_lower = crate::text::lower_chars(crate::text::to_chars(prop).as_slice());
    let prop_tokens = crate::iri::normalize_tokens(prop);
    let mut i: usize = 0;
    while i < varies_by.len()
        invariant
            i <= varies_by@.len(),
            vb == varies_by@.map_values(|s: String| s@),
            prop_lower@ == spec_lower(prop@),
            prop_tokens@.map_values(|t: String| t@) == spec_tokens(prop@),
            forall|j: int| 0 <= j < i ==> !spec_entry_matches(#[trigger] vb[j], prop@),
        decreases varies_by@.len() - i,
    {
        let entry = &varies_by[i];
        let entry_lower = crate::text::lower_chars(crate::text::to_chars(entry.as_str()).as_slice());
        if crate::text::chars_eq(entry_lower.as_slice(), prop_lower.as_slice()) {
            assert(spec_entry_matches(vb[i as int], prop@));
            return true;
        }
        let entry_tokens = crate::iri::normalize_tokens(entry.as_str());
        if entry_tokens.len() == 1 {
            let mut k: usize = 0;
            while k < prop_tokens.len()
                invariant
                    k <= prop_tokens@.len(),
                    i < varies_by@.len(),
                    vb == varies_by@.map_values(|s: String| s@),
                    prop_tokens@.map_values(|t: String| t@) == spec_tokens(prop@),
                    entry_tokens@.map_values(|t: String| t@) == spec_tokens(vb[i as int]),
                    entry_tokens@.len() == 1,
                    forall|m: int| 0 <= m < k ==> spec_tokens(prop@)[m] != spec_tokens(
                        vb[i as int],
                    )[0],
                decreases prop_tokens@.len() - k,
            {
                if prop_tokens[k].eq(&entry_tokens[0]) {
                    proof {
                        assert(spec_tokens(prop@)[k as int] == spec_tokens(vb[i as int])[0]);
                        assert(spec_tokens(prop@).contains(spec_tokens(vb[i as int])[0]));
                        assert(spec_entry_matches(vb[i as int], prop@));
                    }
                    return true;
                }
                k = k + 1;
            }
            proof {
                assert(!spec_tokens(prop@).contains(spec_tokens(vb[i as int])[0]));
                assert(!spec_entry_matches(vb[i as int], prop@));
            }
        } else {
            let equal = string_vecs_eq(&entry_tokens, &prop_tokens);
            if equal && entry_tokens.len() > 1 {
                proof {
                    assert(spec_entry_matches(vb[i as int], prop@));
                }
                return true;
            }
            proof {
                if spec_entry_matches(vb[i as int], prop@) {
                    assert(false);
                }
            }
        }
        i = i + 1;
    }
    false
}


// ---------------------------------------------------------------------------
// Breadcrumbs.
// ---------------------------------------------------------------------------

/// One entry of a breadcrumb trail.
pub struct BreadcrumbItem {
    pub position: u32,
    pub name: String,
    pub url: String,
}

#[verifier::ext_equal]
pub struct BIView {
    pub position: u32,
    pub name: Seq<char>,
    pub url: Seq<char>,
}

pub open spec fn biview(b: BreadcrumbItem) -> BIView {
    BIView { position: b.position, name: b.name@, url: b.url@ }
}

/// A breadcrumb list read off the graph.
pub struct BreadcrumbSummary {
    pub items: Vec<BreadcrumbItem>,
}

/// Insert an item behind every earlier item whose position is not larger:
/// the insertion step of a stable sort by position.
pub open spec fn spec_insert_item(sorted: Seq<BIView>, it: BIView) -> Seq<BIView>
    decreases sorted.len(),
{
    if sorted.len() == 0 {
        seq![it]
    } else if it.position < sorted.first().position {
        seq![it] + sorted
    } else {
        seq![sorted.first()] + spec_insert_item(sorted.drop_first(), it)
    }
}

/// The first `n` items sorted by position, equal positions keeping their
/// encounter order.
pub open spec fn spec_sort_items(items: Seq<BIView>, n: int) -> Seq<BIView>
    decreases n,
{
    if n <= 0 || n > items.len() {
        Seq::<BIView>::empty()
    } else {
        spec_insert_item(spec_sort_items(items, n - 1), items[n - 1])
    }
}

#[verifier::loop_isolation(false)]
fn prepend_item(it: BreadcrumbItem, rest: Vec<BreadcrumbItem>) -> (r: Vec<BreadcrumbItem>)
    ensures
        r@.map_values(|b: BreadcrumbItem| biview(b)) == seq![biview(it)] + rest@.map_values(
            |b: BreadcrumbItem| biview(b),
        ),
{
    let ghost itv = biview(it);
    let mut out: Vec<BreadcrumbItem> = Vec::new();
    out.push(it);
    let ghost rv = rest@.map_values(|b: BreadcrumbItem| biview(b));
    let mut rest = rest;
    proof {
        assert(rest@.map_values(|b: BreadcrumbItem| biview(b)) =~= rv.skip(0));
    }
    while rest.len() > 0
        invariant
            out@.len() >= 1,
            out@.len() + rest@.len() == rv.len() + 1,
            biview(out@[0]) == itv,
            rest@.map_values(|b: BreadcrumbItem| biview(b)) =~= rv.skip(out@.len() - 1),
            out@.map_values(|b: BreadcrumbItem| biview(b)) =~= seq![itv] + rv.take(
                out@.len() - 1,
            ),
        decreases rest@.len(),
    {
        let ghost restv = rest@.map_values(|b: BreadcrumbItem| biview(b));
        let ghost outv = out@.map_values(|b: BreadcrumbItem| biview(b));
        let nxt = rest.remove(0);
        out.push(nxt);
        proof {
            assert(rest@.map_values(|b: BreadcrumbItem| biview(b)) =~= restv.drop_first());
            assert(restv.drop_first() =~= rv.skip(out@.len() - 1));
            assert(out@.map_values(|b: BreadcrumbItem| biview(b)) =~= outv.push(restv[0]));
            assert(rv.take(out@.len() - 1) =~= rv.take(out@.len() - 2).push(
                rv[out@.len() - 2],
            ));
            assert(out@.map_values(|b: BreadcrumbItem| biview(b)) =~= seq![itv] + rv.take(
                out@.len() - 1,
            ));
        }
    }
    proof {
        assert(rv.take(out@.len() - 1) =~= rv);
        assert(out@.map_values(|b: BreadcrumbItem| biview(b)) =~= seq![itv] + rv);
    }
    out
}

fn insert_sorted_item(sorted: Vec<BreadcrumbItem>, it: BreadcrumbItem) -> (r: Vec<BreadcrumbItem>)
    ensures
        r@.map_values(|b: BreadcrumbItem| biview(b)) == spec_insert_item(
            sorted@.map_values(|b: BreadcrumbItem| biview(b)),
            biview(it),
        ),
    decreases sorted@.len(),
{
    let ghost sv = sorted@.map_values(|b: BreadcrumbItem| biview(b));
    let mut sorted = sorted;
    if sorted.len() == 0 {
        let mut out: Vec<BreadcrumbItem> = Vec::new();
        out.push(it);
        proof {
            assert(out@.map_values(|b: BreadcrumbItem| biview(b)) =~= seq![biview(it)]);
        }
        out
    } else if it.position < sorted[0].position {
        let r = prepend_item(it, sorted);
        proof {
            assert(r@.map_values(|b: BreadcrumbItem| biview(b)) =~= spec_insert_item(
                sv,
                biview(it),
            ));
        }
        r
    } else {
        let first = sorted.remove(0);
        proof {
            assert(sorted@.map_values(|b: BreadcrumbItem| biview(b)) =~= sv.drop_first());
        }
        let rest = insert_sorted_item(sorted, it);
        let r = prepend_item(first, rest);
        proof {
            assert(r@.map_values(|b: BreadcrumbItem| biview(b)) =~= spec_insert_item(
                sv,
                biview(it),
            ));
        }
        r
    }
}

/// Sort breadcrumb items by position, equal positions keeping their order.
pub fn sort_breadcrumb_items(items: Vec<BreadcrumbItem>) -> (r: Vec<BreadcrumbItem>)
    ensures
        r@.map_values(|b: BreadcrumbItem| biview(b)) == spec_sort_items(
            items@.map_values(|b: BreadcrumbItem| biview(b)),
            items@.len() as int,
        ),
{
    let ghost iv = items@.map_values(|b: BreadcrumbItem| biview(b));
    let mut out: Vec<BreadcrumbItem> = Vec::new();
    let mut rest = items;
    let ghost mut done: int = 0;
    proof {
        assert(rest@.map_values(|b: BreadcrumbItem| biview(b)) =~= iv.skip(0));
        assert(out@.map_values(|b: BreadcrumbItem| biview(b)) =~= spec_sort_items(iv, 0));
    }
    while rest.len() > 0
        invariant
            0 <= done,
            done + rest@.len() == iv.len(),
            rest@.map_values(|b: BreadcrumbItem| biview(b)) =~= iv.skip(done),
            out@.map_values(|b: BreadcrumbItem| biview(b)) == spec_sort_items(iv, done),
        decreases rest@.len(),
    {
        let ghost restv = rest@.map_values(|b: BreadcrumbItem| biview(b));
        let nxt = rest.remove(0);
        proof {
            assert(biview(nxt) == restv[0]);
            assert(iv.skip(done)[0] == iv[done]);
            assert(rest@.map_values(|b: BreadcrumbItem| biview(b)) =~= restv.drop_first());
            assert(restv.drop_first() =~= iv.skip(done + 1));
        }
        out = insert_sorted_item(out, nxt);
        proof {
            done = done + 1;
        }
    }
    proof {
        assert(iv.skip(done).len() == 0);
        assert(done == iv.len());
    }
    out
}

/// The rendered trail of the first `n` items: `name (url)` joined by arrows.
pub open spec fn spec_trail(items: Seq<BIView>, n: int) -> Seq<char>
    decreases n,
{
    if n <= 0 || n > items.len() {
        Seq::<char>::empty()
    } else {
        let entry = items[n - 1].name + " ("@ + items[n - 1].url + ")"@;
        if n == 1 {
            entry
        } else {
            spec_trail(items, n - 1) + " \u{2192} "@ + entry
        }
    }
}

/// Render a breadcrumb trail, sorted by position.
pub fn render_breadcrumb_trail(breadcrumb: &BreadcrumbSummary) -> (r: String)
    ensures
        ({
            let sorted = spec_sort_items(
                breadcrumb.items@.map_values(|b: BreadcrumbItem| biview(b)),
                breadcrumb.items@.len() as int,
            );
            r@ == spec_trail(sorted, sorted.len() as int)
        }),
{
    let mut copy: Vec<BreadcrumbItem> = Vec::new();
    let mut i: usize = 0;
    while i < breadcrumb.items.len()
        invariant
            i <= breadcrumb.items@.len(),
            copy@.map_values(|b: BreadcrumbItem| biview(b)) =~= breadcrumb.items@.map_values(
                |b: BreadcrumbItem| biview(b),
            ).take(i as int),
        decreases breadcrumb.items@.len() - i,
    {
        let ghost cv = copy@.map_values(|b: BreadcrumbItem| biview(b));
        let item = BreadcrumbItem {
            position: breadcrumb.items[i].position,
            name: breadcrumb.items[i].name.clone(),
            url: breadcrumb.items[i].url.clone(),
        };
        copy.push(item);
        proof {
            let bv = breadcrumb.items@.map_values(|b: BreadcrumbItem| biview(b));
            assert(copy@.map_values(|b: BreadcrumbItem| biview(b)) =~= cv.push(bv[i as int]));
            assert(bv.take(i + 1) =~= bv.take(i as int).push(bv[i as int]));
        }
        i = i + 1;
    }
    proof {
        let bv = breadcrumb.items@.map_values(|b: BreadcrumbItem| biview(b));
        assert(bv.take(bv.len() as int) =~= bv);
    }
    let sorted = sort_breadcrumb_items(copy);
    let ghost sv = sorted@.map_values(|b: BreadcrumbItem| biview(b));
    let mut out: Vec<char> = Vec::new();
    let mut i: usize = 0;
    proof {
        assert(sorted@.len() == sv.len());
    }
    while i < sorted.len()
        invariant
            i <= sorted@.len(),
            sv == sorted@.map_values(|b: BreadcrumbItem| biview(b)),
            sv.len() == sorted@.len(),
            out@ == spec_trail(sv, i as int),
        decreases sorted@.len() - i,
    {
        if i > 0 {
            crate::text::push_str_chars(&mut out, " \u{2192} ");
        }
        crate::text::push_str_chars(&mut out, sorted[i].name.as_str());
        crate::text::push_str_chars(&mut out, " (");
        crate::text::push_str_chars(&mut out, sorted[i].url.as_str());
        crate::text::push_str_chars(&mut out, ")");
        proof {
            assert(biview(sorted@[i as int]) == sv[i as int]);
            assert(out@ =~= spec_trail(sv, i + 1));
        }
        i = i + 1;
    }
    crate::text::from_chars(&out)
}


/// The text of an optional property, the empty text when absent.
pub open spec fn opt_or_empty(o: Option<Seq<char>>) -> Seq<char> {
    match o {
        Some(s) => s,
        None => Seq::<char>::empty(),
    }
}

pub open spec fn position_keys() -> Seq<Seq<char>> {
    seq!["https://schema.org/position"@, "http://schema.org/position"@, "position"@]
}

pub open spec fn name_keys() -> Seq<Seq<char>> {
    seq!["https://schema.org/name"@, "http://schema.org/name"@, "name"@]
}

pub open spec fn item_keys() -> Seq<Seq<char>> {
    seq!["https://schema.org/item"@, "http://schema.org/item"@, "item"@]
}

/// The position a list item's properties give: the position text read as an
/// unsigned number, zero when absent or unreadable.
pub open spec fn spec_item_position(props: Seq<(Seq<char>, JsonV)>) -> u32 {
    match spec_property_text(props, position_keys()) {
        Some(p) => match crate::robots::spec_parse_u32(p) {
            Some(v) => v,
            None => 0,
        },
        None => 0,
    }
}

/// The breadcrumb items the first `i` outgoing edges contribute: one per
/// `itemListElement` edge whose target exists and is typed `ListItem`, in
/// edge order, with parsed position and defaulted name and item texts.
pub open spec fn spec_breadcrumb_items(out: Seq<EdgeV>, nodes: Seq<NodeV>, i: int) -> Seq<BIView>
    decreases i,
{
    if i <= 0 || i > out.len() {
        Seq::<BIView>::empty()
    } else {
        let prev = spec_breadcrumb_items(out, nodes, i - 1);
        let e = out[i - 1];
        let k = crate::graph::node_index(nodes, e.to);
        if spec_ends_with(e.predicate, "itemListElement"@) && k >= 0 && crate::iri::spec_has_type(
            nodes[k].types,
            "ListItem"@,
        ) {
            prev.push(
                BIView {
                    position: spec_item_position(nodes[k].props),
                    name: opt_or_empty(spec_property_text(nodes[k].props, name_keys())),
                    url: opt_or_empty(spec_property_text(nodes[k].props, item_keys())),
                },
            )
        } else {
            prev
        }
    }
}

/// What `extract_breadcrumb` returns.
pub open spec fn extract_breadcrumb_post(
    r: BreadcrumbSummary,
    adjacency: Adjacency,
    node: GraphNode,
    graph: KnowledgeGraph,
) -> bool {
    let out = spec_outgoing(edges_view(adjacency.edges@), nview(node).id);
    r.items@.map_values(|b: BreadcrumbItem| biview(b)) == spec_breadcrumb_items(
        out,
        gview(graph).nodes,
        out.len() as int,
    )
}

/// Read the breadcrumb items a node's `itemListElement` edges lead to: each
/// target typed `ListItem` contributes its position (zero when unreadable),
/// name and item, in edge order.
#[verifier::loop_isolation(false)]
pub fn extract_breadcrumb(
    node: &GraphNode,
    adjacency: &Adjacency,
    graph: &KnowledgeGraph,
) -> (r: BreadcrumbSummary)
    ensures
        extract_breadcrumb_post(r, *adjacency, *node, *graph),
{
    let out_edges = adjacency.outgoing(node.id.as_str());
    let ghost out = spec_outgoing(edges_view(adjacency.edges@), nview(*node).id);
    let ghost nodes = gview(*graph).nodes;
    let mut items: Vec<BreadcrumbItem> = Vec::new();
    let mut i: usize = 0;
    proof {
        assert(items@.map_values(|b: BreadcrumbItem| biview(b)) =~= Seq::<BIView>::empty());
    }
    while i < out_edges.len()
        invariant
            i <= out_edges@.len(),
            out == edges_view(out_edges@),
            out.len() == out_edges@.len(),
            items@.map_values(|b: BreadcrumbItem| biview(b)) == spec_breadcrumb_items(
                out,
                nodes,
                i as int,
            ),
        decreases out_edges@.len() - i,
    {
        proof {
            assert(out[i as int] == eview(out_edges@[i as int]));
        }
        if crate::iri::predicate_matches(out_edges[i].predicate.as_str(), "itemListElement") {
            let target = find_node(graph, out_edges[i].to.as_str());
            match target {
                Some(list_item) => {
                    proof {
                        assert(nview(*list_item) == nodes[crate::graph::node_index(
                            nodes,
                            out[i as int].to,
                        )]);
                    }
                    if crate::iri::has_schema_type(list_item, "ListItem") {
                        proof {
                            assert(
                                seq![
                                    "https://schema.org/position",
                                    "http://schema.org/position",
                                    "position",
                                ].map_values(|k: &str| k@) =~= position_keys());
                            assert(
                                seq!["https://schema.org/name", "http://schema.org/name", "name"]
                                    .map_values(|k: &str| k@) =~= name_keys());
                            assert(
                                seq!["https://schema.org/item", "http://schema.org/item", "item"]
                                    .map_values(|k: &str| k@) =~= item_keys());
                        }
                        let position = match property_text(
                            list_item,
                            &[
                                "https://schema.org/position",
                                "http://schema.org/position",
                                "position",
                            ],
                        ) {
                            Some(p) => {
                                match crate::robots::parse_u32_text(p.as_str()) {
                                    Some(v) => v,
                                    None => 0,
                                }
                            },
                            None => 0,
                        };
                        let name = match property_text(
                            list_item,
                            &["https://schema.org/name", "http://schema.org/name", "name"],
                        ) {
                            Some(n) => n,
                            None => crate::text::from_chars(&Vec::new()),
                        };
                        let url = match property_text(
                            list_item,
                            &["https://schema.org/item", "http://schema.org/item", "item"],
                        ) {
                            Some(u) => u,
                            None => crate::text::from_chars(&Vec::new()),
                        };
                        let ghost prev = items@.map_values(|b: BreadcrumbItem| biview(b));
                        items.push(BreadcrumbItem { position, name, url });
                        proof {
                            assert(items@.map_values(|b: BreadcrumbItem| biview(b)) =~= prev.push(
                                biview(items@.last()),
                            ));
                            assert(items@.map_values(|b: BreadcrumbItem| biview(b))
                                =~= spec_breadcrumb_items(out, nodes, i + 1));
                        }
                    }
                },
                None => {},
            }
        }
        i = i + 1;
    }
    let r = BreadcrumbSummary { items };
    proof {
        assert(extract_breadcrumb_post(r, *adjacency, *node, *graph));
    }
    r
}




// ---------------------------------------------------------------------------
// Name/value pair lists with map semantics.
// ---------------------------------------------------------------------------

/// Index of the entry recorded for `key`, or `-1`.
pub open spec fn pair_index(pairs: Seq<(Seq<char>, Seq<char>)>, key: Seq<char>) -> int
    decreases pairs,
{
    if pairs.len() == 0 {
        -1
    } else if pairs.first().0 == key {
        0
    } else {
        let r = pair_index(pairs.drop_first(), key);
        if r < 0 {
            -1
        } else {
            r + 1
        }
    }
}

pub broadcast proof fn pair_index_props(pairs: Seq<(Seq<char>, Seq<char>)>, key: Seq<char>)
    ensures
        -1 <= #[trigger] pair_index(pairs, key) < pairs.len(),
        pair_index(pairs, key) >= 0 ==> pairs[pair_index(pairs, key)].0 == key,
        pair_index(pairs, key) == -1 ==> forall|j: int|
            0 <= j < pairs.len() ==> pairs[j].0 != key,
    decreases pairs,
{
    if pairs.len() > 0 && pairs.first().0 != key {
        pair_index_props(pairs.drop_first(), key);
        assert forall|j: int|
            pair_index(pairs, key) == -1 && 0 <= j < pairs.len() implies pairs[j].0 != key by {
            if j > 0 {
                assert(pairs.drop_first()[j - 1] == pairs[j]);
            }
        }
    }
}

/// Record a value under a key: replace the entry, or append one.
pub open spec fn spec_pair_insert(
    pairs: Seq<(Seq<char>, Seq<char>)>,
    key: Seq<char>,
    val: Seq<char>,
) -> Seq<(Seq<char>, Seq<char>)> {
    let i = pair_index(pairs, key);
    if i >= 0 {
        pairs.update(i, (key, val))
    } else {
        pairs.push((key, val))
    }
}

/// Record a value only when the key is absent.
pub open spec fn spec_pair_default(
    pairs: Seq<(Seq<char>, Seq<char>)>,
    key: Seq<char>,
    val: Seq<char>,
) -> Seq<(Seq<char>, Seq<char>)> {
    if pair_index(pairs, key) >= 0 {
        pairs
    } else {
        pairs.push((key, val))
    }
}

pub open spec fn pairs_view(pairs: Seq<(String, String)>) -> Seq<(Seq<char>, Seq<char>)> {
    pairs.map_values(|p: (String, String)| (p.0@, p.1@))
}

fn pairs_find(pairs: &Vec<(String, String)>, key: &[char]) -> (r: Option<usize>)
    ensures
        match r {
            Some(i) => i < pairs@.len() && i == pair_index(pairs_view(pairs@), key@),
            None => pair_index(pairs_view(pairs@), key@) == -1,
        },
{
    let ghost pv = pairs_view(pairs@);
    proof {
        assert(pv.skip(0) =~= pv);
    }
    let mut i: usize = 0;
    while i < pairs.len()
        invariant
            i <= pairs@.len(),
            pv == pairs_view(pairs@),
            pv.len() == pairs@.len(),
            pair_index(pv, key@) == if pair_index(pv.skip(i as int), key@) >= 0 {
                i + pair_index(pv.skip(i as int), key@)
            } else {
                -1
            },
        decreases pairs@.len() - i,
    {
        proof {
            pair_index_props(pv.skip(i as int), key@);
            assert(pv.skip(i as int).first() == pv[i as int]);
        }
        if crate::text::chars_eq(crate::text::to_chars(pairs[i].0.as_str()).as_slice(), key) {
            return Some(i);
        }
        proof {
            assert(pv.skip(i as int).drop_first() =~= pv.skip(i + 1));
        }
        i = i + 1;
    }
    proof {
        assert(pv.skip(pv.len() as int) =~= Seq::<(Seq<char>, Seq<char>)>::empty());
    }
    None
}

/// Record a value under a key, replacing an earlier record.
fn pairs_insert(pairs: &mut Vec<(String, String)>, key: String, val: String)
    ensures
        pairs_view(final(pairs)@) == spec_pair_insert(pairs_view(old(pairs)@), key@, val@),
{
    proof {
        pair_index_props(pairs_view(pairs@), key@);
    }
    let found = pairs_find(pairs, crate::text::to_chars(key.as_str()).as_slice());
    match found {
        Some(i) => {
            pairs.remove(i);
            pairs.insert(i, (key, val));
            proof {
                assert(pairs_view(pairs@) =~= spec_pair_insert(
                    pairs_view(old(pairs)@),
                    key@,
                    val@,
                ));
            }
        },
        None => {
            pairs.push((key, val));
            proof {
                assert(pairs_view(pairs@) =~= spec_pair_insert(
                    pairs_view(old(pairs)@),
                    key@,
                    val@,
                ));
            }
        },
    }
}

/// Record a value only when the key is absent.
fn pairs_default(pairs: &mut Vec<(String, String)>, key: String, val: String)
    ensures
        pairs_view(final(pairs)@) == spec_pair_default(pairs_view(old(pairs)@), key@, val@),
{
    proof {
        pair_index_props(pairs_view(pairs@), key@);
    }
    let found = pairs_find(pairs, crate::text::to_chars(key.as_str()).as_slice());
    match found {
        Some(_) => {},
        None => {
            pairs.push((key, val));
            proof {
                assert(pairs_view(pairs@) =~= spec_pair_default(
                    pairs_view(old(pairs)@),
                    key@,
                    val@,
                ));
            }
        },
    }
}

/// The value recorded under a key, if any.
pub fn pairs_get(pairs: &Vec<(String, String)>, key: &str) -> (r: Option<String>)
    ensures
        match r {
            Some(v) => pair_index(pairs_view(pairs@), key@) >= 0 && v@ == pairs_view(
                pairs@,
            )[pair_index(pairs_view(pairs@), key@)].1,
            None => pair_index(pairs_view(pairs@), key@) == -1,
        },
{
    let found = pairs_find(pairs, crate::text::to_chars(key).as_slice());
    match found {
        Some(i) => {
            proof {
                assert(pairs_view(pairs@)[i as int].1 == pairs@[i as int].1@);
            }
            Some(pairs[i].1.clone())
        },
        None => None,
    }
}

// ---------------------------------------------------------------------------
// Additional properties of a product.
// ---------------------------------------------------------------------------

pub open spec fn value_keys() -> Seq<Seq<char>> {
    seq!["https://schema.org/value"@, "http://schema.org/value"@, "value"@]
}

/// The name/value pairs the first `i` outgoing edges contribute: for each
/// `additionalProperty` edge whose target exists, is typed `PropertyValue`
/// and carries name and value texts, the pair is recorded, later records
/// replacing earlier ones.
pub open spec fn spec_additional(out: Seq<EdgeV>, nodes: Seq<NodeV>, i: int) -> Seq<(
    Seq<char>,
    Seq<char>,
)>
    decreases i,
{
    if i <= 0 || i > out.len() {
        Seq::<(Seq<char>, Seq<char>)>::empty()
    } else {
        let prev = spec_additional(out, nodes, i - 1);
        let e = out[i - 1];
        let k = crate::graph::node_index(nodes, e.to);
        if spec_ends_with(e.predicate, "additionalProperty"@) && k >= 0
            && crate::iri::spec_has_type(nodes[k].types, "PropertyValue"@) {
            match spec_property_text(nodes[k].props, name_keys()) {
                Some(name) => match spec_property_text(nodes[k].props, value_keys()) {
                    Some(value) => spec_pair_insert(prev, name, value),
                    None => prev,
                },
                None => prev,
            }
        } else {
            prev
        }
    }
}

/// Collect the `additionalProperty` name/value pairs of a product.
#[verifier::loop_isolation(false)]
pub fn collect_additional_properties(
    product: &GraphNode,
    adjacency: &Adjacency,
    graph: &KnowledgeGraph,
) -> (r: Vec<(String, String)>)
    ensures
        ({
            let out = spec_outgoing(edges_view(adjacency.edges@), nview(*product).id);
            pairs_view(r@) == spec_additional(out, gview(*graph).nodes, out.len() as int)
        }),
{
    let out_edges = adjacency.outgoing(product.id.as_str());
    let ghost out = spec_outgoing(edges_view(adjacency.edges@), nview(*product).id);
    let ghost nodes = gview(*graph).nodes;
    let mut result: Vec<(String, String)> = Vec::new();
    let mut i: usize = 0;
    proof {
        assert(pairs_view(result@) =~= Seq::<(Seq<char>, Seq<char>)>::empty());
    }
    while i < out_edges.len()
        invariant
            i <= out_edges@.len(),
            out == edges_view(out_edges@),
            out.len() == out_edges@.len(),
            pairs_view(result@) == spec_additional(out, nodes, i as int),
        decreases out_edges@.len() - i,
    {
        proof {
            assert(out[i as int] == eview(out_edges@[i as int]));
            assert(
                seq!["https://schema.org/name", "http://schema.org/name", "name"].map_values(
                    |k: &str| k@,
                ) =~= name_keys());
            assert(
                seq!["https://schema.org/value", "http://schema.org/value", "value"].map_values(
                    |k: &str| k@,
                ) =~= value_keys());
        }
        if crate::iri::predicate_matches(out_edges[i].predicate.as_str(), "additionalProperty") {
            let target = find_node(graph, out_edges[i].to.as_str());
            match target {
                Some(pv_node) => {
                    proof {
                        assert(nview(*pv_node) == nodes[crate::graph::node_index(
                            nodes,
                            out[i as int].to,
                        )]);
                    }
                    if crate::iri::has_schema_type(pv_node, "PropertyValue") {
                        let name = property_text(
                            pv_node,
                            &["https://schema.org/name", "http://schema.org/name", "name"],
                        );
                        match name {
                            Some(name) => {
                                let value = property_text(
                                    pv_node,
                                    &[
                                        "https://schema.org/value",
                                        "http://schema.org/value",
                                        "value",
                                    ],
                                );
                                match value {
                                    Some(value) => {
                                        pairs_insert(&mut result, name, value);
                                    },
                                    None => {},
                                }
                            },
                            None => {},
                        }
                    }
                },
                None => {},
            }
        }
        i = i + 1;
    }
    result
}


// ---------------------------------------------------------------------------
// Variant summaries.
// ---------------------------------------------------------------------------

/// One product variant as the summaries read it.
pub struct VariantSummary {
    pub sku: Option<String>,
    pub color: Option<String>,
    pub size: Option<String>,
    pub additional: Vec<(String, String)>,
    pub price_display: Option<String>,
    pub price_micros: Option<i64>,
    pub price_currency: Option<String>,
    pub availability: Option<String>,
}

pub open spec fn sku_keys() -> Seq<Seq<char>> {
    seq!["https://schema.org/sku"@, "http://schema.org/sku"@, "sku"@]
}

pub open spec fn color_keys() -> Seq<Seq<char>> {
    seq!["https://schema.org/color"@, "http://schema.org/color"@, "color"@]
}

pub open spec fn size_keys() -> Seq<Seq<char>> {
    seq!["https://schema.org/size"@, "http://schema.org/size"@, "size"@]
}

/// The variant's own pairs extended, under each `isVariantOf` edge in order,
/// by the parent's pairs, existing names kept.
pub open spec fn spec_inherited(
    own: Seq<(Seq<char>, Seq<char>)>,
    out: Seq<EdgeV>,
    nodes: Seq<NodeV>,
    adjacency: Adjacency,
    graph: KnowledgeGraph,
    i: int,
) -> Seq<(Seq<char>, Seq<char>)>
    decreases i,
{
    if i <= 0 || i > out.len() {
        own
    } else {
        let prev = spec_inherited(own, out, nodes, adjacency, graph, i - 1);
        let e = out[i - 1];
        let k = crate::graph::node_index(nodes, e.to);
        if spec_ends_with(e.predicate, "isVariantOf"@) && k >= 0 {
            let parent_out = spec_outgoing(edges_view(adjacency.edges@), nodes[k].id);
            let parent = spec_additional(parent_out, nodes, parent_out.len() as int);
            spec_defaults_from(prev, parent, parent.len() as int)
        } else {
            prev
        }
    }
}

/// Record the first `i` of `src` into `acc`, existing names kept.
pub open spec fn spec_defaults_from(
    acc: Seq<(Seq<char>, Seq<char>)>,
    src: Seq<(Seq<char>, Seq<char>)>,
    i: int,
) -> Seq<(Seq<char>, Seq<char>)>
    decreases i,
{
    if i <= 0 || i > src.len() {
        acc
    } else {
        spec_pair_default(
            spec_defaults_from(acc, src, i - 1),
            src[i - 1].0,
            src[i - 1].1,
        )
    }
}


/// View of a variant summary.
#[verifier::ext_equal]
pub struct VSView {
    pub sku: Option<Seq<char>>,
    pub color: Option<Seq<char>>,
    pub size: Option<Seq<char>>,
    pub additional: Seq<(Seq<char>, Seq<char>)>,
    pub price_display: Option<Seq<char>>,
    pub price_micros: Option<i64>,
    pub price_currency: Option<Seq<char>>,
    pub availability: Option<Seq<char>>,
}

pub open spec fn opt_view(o: Option<String>) -> Option<Seq<char>> {
    match o {
        Some(s) => Some(s@),
        None => None,
    }
}

pub open spec fn vsview(v: VariantSummary) -> VSView {
    VSView {
        sku: opt_view(v.sku),
        color: opt_view(v.color),
        size: opt_view(v.size),
        additional: pairs_view(v.additional@),
        price_display: opt_view(v.price_display),
        price_micros: v.price_micros,
        price_currency: opt_view(v.price_currency),
        availability: opt_view(v.availability),
    }
}

/// The variant summary of the node at index `k`, as a function of the graph.
pub open spec fn spec_variant_of(adjacency: Adjacency, graph: KnowledgeGraph, k: int) -> VSView {
    let nodes = gview(graph).nodes;
    let props = nodes[k].props;
    let out = spec_outgoing(edges_view(adjacency.edges@), nodes[k].id);
    let own = spec_additional(out, nodes, out.len() as int);
    let o = spec_first_offer(out, nodes);
    let offer_props = nodes[o].props;
    let raw = spec_property_text(offer_props, price_keys());
    let cur = spec_property_text(offer_props, currency_keys());
    VSView {
        sku: spec_property_text(props, sku_keys()),
        color: spec_property_text(props, color_keys()),
        size: spec_property_text(props, size_keys()),
        additional: spec_inherited(own, out, nodes, adjacency, graph, out.len() as int),
        price_display: if o >= 0 {
            match raw {
                Some(rt) => Some(
                    match crate::price::spec_parse_price(rt) {
                        Some(v) => spec_format_price(v, cur),
                        None => rt,
                    },
                ),
                None => None,
            }
        } else {
            None
        },
        price_micros: if o >= 0 {
            match raw {
                Some(rt) => match crate::price::spec_parse_price(rt) {
                    Some(v) => Some(v as i64),
                    None => None,
                },
                None => None,
            }
        } else {
            None
        },
        price_currency: if o >= 0 {
            cur
        } else {
            None
        },
        availability: if o >= 0 {
            match spec_property_text(offer_props, availability_keys()) {
                Some(s) => Some(spec_shorten(s)),
                None => None,
            }
        } else {
            None
        },
    }
}

/// What `summarize_variant` returns: the direct sku/color/size texts, the
/// additional pairs with `isVariantOf` inheritance, and the offer fields of
/// the first `offers`-edge target typed `Offer` (absent fields when there is
/// no such offer).
pub open spec fn summarize_variant_post(
    r: VariantSummary,
    adjacency: Adjacency,
    product: GraphNode,
    graph: KnowledgeGraph,
) -> bool {
    let props = nview(product).props;
    let out = spec_outgoing(edges_view(adjacency.edges@), nview(product).id);
    let nodes = gview(graph).nodes;
    let own = spec_additional(out, nodes, out.len() as int);
    &&& text_matches(r.sku, props, sku_keys())
    &&& text_matches(r.color, props, color_keys())
    &&& text_matches(r.size, props, size_keys())
    &&& pairs_view(r.additional@) == spec_inherited(
        own,
        out,
        nodes,
        adjacency,
        graph,
        out.len() as int,
    )
    &&& (if spec_first_offer(out, nodes) >= 0 {
        offer_fields_ok(
            OfferInfo {
                price_display: r.price_display,
                price_micros: r.price_micros,
                price_currency: r.price_currency,
                availability: r.availability,
            },
            nodes[spec_first_offer(out, nodes)].props,
        )
    } else {
        r.price_display is None && r.price_micros is None && r.price_currency is None
            && r.availability is None
    })
}

/// Summarize one product variant.
#[verifier::loop_isolation(false)]
pub fn summarize_variant(
    product: &GraphNode,
    adjacency: &Adjacency,
    graph: &KnowledgeGraph,
) -> (r: VariantSummary)
    ensures
        summarize_variant_post(r, *adjacency, *product, *graph),
        forall|k: int|
            0 <= k < gview(*graph).nodes.len() && gview(*graph).nodes[k] == nview(*product)
                ==> vsview(r) == #[trigger] spec_variant_of(*adjacency, *graph, k),
{
    proof {
        assert(seq!["https://schema.org/sku", "http://schema.org/sku", "sku"].map_values(
            |k: &str| k@,
        ) =~= sku_keys());
        assert(seq!["https://schema.org/color", "http://schema.org/color", "color"].map_values(
            |k: &str| k@,
        ) =~= color_keys());
        assert(seq!["https://schema.org/size", "http://schema.org/size", "size"].map_values(
            |k: &str| k@,
        ) =~= size_keys());
    }
    let sku = property_text(
        product,
        &["https://schema.org/sku", "http://schema.org/sku", "sku"],
    );
    let color = property_text(
        product,
        &["https://schema.org/color", "http://schema.org/color", "color"],
    );
    let size = property_text(
        product,
        &["https://schema.org/size", "http://schema.org/size", "size"],
    );
    let mut additional = collect_additional_properties(product, adjacency, graph);
    let ghost out = spec_outgoing(edges_view(adjacency.edges@), nview(*product).id);
    let ghost nodes = gview(*graph).nodes;
    let ghost own = spec_additional(out, nodes, out.len() as int);
    // inherit the parent's pairs where this variant has none of its own
    let out_edges = adjacency.outgoing(product.id.as_str());
    let mut i: usize = 0;
    while i < out_edges.len()
        invariant
            i <= out_edges@.len(),
            out == edges_view(out_edges@),
            out.len() == out_edges@.len(),
            pairs_view(additional@) == spec_inherited(
                own,
                out,
                nodes,
                *adjacency,
                *graph,
                i as int,
            ),
        decreases out_edges@.len() - i,
    {
        proof {
            assert(out[i as int] == eview(out_edges@[i as int]));
        }
        if crate::iri::predicate_matches(out_edges[i].predicate.as_str(), "isVariantOf") {
            let target = find_node(graph, out_edges[i].to.as_str());
            match target {
                Some(parent_node) => {
                    proof {
                        assert(nview(*parent_node) == nodes[crate::graph::node_index(
                            nodes,
                            out[i as int].to,
                        )]);
                    }
                    let parent = collect_additional_properties(parent_node, adjacency, graph);
                    let ghost pv = pairs_view(parent@);
                    let ghost acc0 = pairs_view(additional@);
                    let mut k: usize = 0;
                    proof {
                        assert(pairs_view(parent@).len() == parent@.len());
                    }
                    while k < parent.len()
                        invariant
                            k <= parent@.len(),
                            pv == pairs_view(parent@),
                            pv.len() == parent@.len(),
                            pairs_view(additional@) == spec_defaults_from(acc0, pv, k as int),
                        decreases parent@.len() - k,
                    {
                        proof {
                            assert(pv[k as int] == (parent@[k as int].0@, parent@[k as int].1@));
                        }
                        pairs_default(
                            &mut additional,
                            parent[k].0.clone(),
                            parent[k].1.clone(),
                        );
                        k = k + 1;
                    }
                },
                None => {},
            }
        }
        i = i + 1;
    }
    let offer = extract_offer(product, adjacency, graph);
    let (price_display, price_micros, price_currency, availability) = match offer {
        Some(info) => (info.price_display, info.price_micros, info.price_currency,
            info.availability),
        None => (None, None, None, None),
    };
    let r = VariantSummary {
        sku,
        color,
        size,
        additional,
        price_display,
        price_micros,
        price_currency,
        availability,
    };
    proof {
        assert(summarize_variant_post(r, *adjacency, *product, *graph));
        assert forall|k: int|
            0 <= k < gview(*graph).nodes.len() && gview(*graph).nodes[k] == nview(
                *product,
            ) implies vsview(r) == #[trigger] spec_variant_of(*adjacency, *graph, k) by {
            let nv = gview(*graph).nodes;
            assert(nv[k].props == nview(*product).props);
            assert(nv[k].id == nview(*product).id);
            if spec_first_offer(out, nv) >= 0 {
                assert(vsview(r) =~= spec_variant_of(*adjacency, *graph, k));
            } else {
                assert(vsview(r) =~= spec_variant_of(*adjacency, *graph, k));
            }
        }
    }
    r
}


// ---------------------------------------------------------------------------
// Common properties of a product group's variants.
// ---------------------------------------------------------------------------

/// The direct property names the common-property scan reads.
pub open spec fn direct_names() -> Seq<Seq<char>> {
    seq![
        "name"@,
        "description"@,
        "material"@,
        "color"@,
        "size"@,
        "brand"@,
        "model"@,
        "category"@,
        "width"@,
        "height"@,
        "depth"@,
        "weight"@,
    ]
}

/// The lookup keys of one direct property name.
pub open spec fn direct_keys(name: Seq<char>) -> Seq<Seq<char>> {
    keys3("https://schema.org/"@ + name, "http://schema.org/"@ + name, name)
}

/// The common pairs among the first `i` direct names: a name is recorded
/// with its text when it does not vary and its property resolves.
pub open spec fn spec_common_direct(
    props: Seq<(Seq<char>, JsonV)>,
    varies: Seq<Seq<char>>,
    i: int,
) -> Seq<(Seq<char>, Seq<char>)>
    decreases i,
{
    if i <= 0 || i > direct_names().len() {
        Seq::<(Seq<char>, Seq<char>)>::empty()
    } else {
        let prev = spec_common_direct(props, varies, i - 1);
        let name = direct_names()[i - 1];
        if !spec_is_varying(varies, name) {
            match spec_property_text(props, direct_keys(name)) {
                Some(v) => spec_pair_insert(prev, name, v),
                None => prev,
            }
        } else {
            prev
        }
    }
}

/// The additional pairs folded in: each recorded unless its name varies.
pub open spec fn spec_common_additional(
    acc: Seq<(Seq<char>, Seq<char>)>,
    additional: Seq<(Seq<char>, Seq<char>)>,
    varies: Seq<Seq<char>>,
    i: int,
) -> Seq<(Seq<char>, Seq<char>)>
    decreases i,
{
    if i <= 0 || i > additional.len() {
        acc
    } else {
        let prev = spec_common_additional(acc, additional, varies, i - 1);
        if !spec_is_varying(varies, additional[i - 1].0) {
            spec_pair_insert(prev, additional[i - 1].0, additional[i - 1].1)
        } else {
            prev
        }
    }
}

/// What `extract_common_properties` returns.
pub open spec fn common_properties_post(
    r: Seq<(String, String)>,
    adjacency: Adjacency,
    variant: GraphNode,
    graph: KnowledgeGraph,
    varies: Seq<Seq<char>>,
) -> bool {
    let props = nview(variant).props;
    let out = spec_outgoing(edges_view(adjacency.edges@), nview(variant).id);
    let nodes = gview(graph).nodes;
    let additional = spec_additional(out, nodes, out.len() as int);
    pairs_view(r) == spec_common_additional(
        spec_common_direct(props, varies, direct_names().len() as int),
        additional,
        varies,
        additional.len() as int,
    )
}

/// The properties a variant shares with its siblings: every direct property
/// and `additionalProperty` pair whose name is not classified as varying.
#[verifier::loop_isolation(false)]
pub fn extract_common_properties(
    variant: &GraphNode,
    adjacency: &Adjacency,
    graph: &KnowledgeGraph,
    varies_by: &Vec<String>,
) -> (r: Vec<(String, String)>)
    ensures
        common_properties_post(
            r@,
            *adjacency,
            *variant,
            *graph,
            varies_by@.map_values(|s: String| s@),
        ),
{
    let ghost varies = varies_by@.map_values(|s: String| s@);
    let ghost props = nview(*variant).props;
    let names: [&str; 12] = [
        "name",
        "description",
        "material",
        "color",
        "size",
        "brand",
        "model",
        "category",
        "width",
        "height",
        "depth",
        "weight",
    ];
    proof {
        assert(names@.map_values(|k: &str| k@) =~= direct_names());
    }
    let mut common: Vec<(String, String)> = Vec::new();
    let mut i: usize = 0;
    proof {
        assert(pairs_view(common@) =~= Seq::<(Seq<char>, Seq<char>)>::empty());
    }
    while i < 12
        invariant
            i <= 12,
            pairs_view(common@) == spec_common_direct(props, varies, i as int),
        decreases 12 - i,
    {
        let name = names[i];
        proof {
            assert(names@[i as int]@ == direct_names()[i as int]);
        }
        if !is_varying(varies_by, name) {
            let mut https_key = crate::text::to_chars("https://schema.org/");
            crate::text::push_str_chars(&mut https_key, name);
            let mut http_key = crate::text::to_chars("http://schema.org/");
            crate::text::push_str_chars(&mut http_key, name);
            let https_str = crate::text::from_chars(&https_key);
            let http_str = crate::text::from_chars(&http_key);
            let keys: [&str; 3] = [https_str.as_str(), http_str.as_str(), name];
            proof {
                assert(keys@.map_values(|k: &str| k@) =~= direct_keys(name@));
            }
            let v = property_text(variant, keys.as_slice());
            match v {
                Some(v) => {
                    pairs_insert(&mut common, crate::text::from_chars(&crate::text::to_chars(name)), v);
                },
                None => {},
            }
        }
        i = i + 1;
    }
    let additional = collect_additional_properties(variant, adjacency, graph);
    let ghost av = pairs_view(additional@);
    let ghost acc0 = pairs_view(common@);
    let mut k: usize = 0;
    proof {
        assert(av.len() == additional@.len());
    }
    while k < additional.len()
        invariant
            k <= additional@.len(),
            av == pairs_view(additional@),
            av.len() == additional@.len(),
            pairs_view(common@) == spec_common_additional(acc0, av, varies, k as int),
        decreases additional@.len() - k,
    {
        proof {
            assert(av[k as int] == (additional@[k as int].0@, additional@[k as int].1@));
        }
        if !is_varying(varies_by, additional[k].0.as_str()) {
            pairs_insert(&mut common, additional[k].0.clone(), additional[k].1.clone());
        }
        k = k + 1;
    }
    common
}


// ---------------------------------------------------------------------------
// PropertyValue labels for the diagram.
// ---------------------------------------------------------------------------

pub open spec fn pv_name_keys() -> Seq<Seq<char>> {
    seq![
        "https://schema.org/propertyID"@,
        "http://schema.org/propertyID"@,
        "propertyID"@,
        "https://schema.org/name"@,
        "http://schema.org/name"@,
        "name"@,
    ]
}

pub open spec fn pv_value_keys() -> Seq<Seq<char>> {
    seq![
        "https://schema.org/value"@,
        "http://schema.org/value"@,
        "value"@,
        "https://schema.org/valueReference"@,
        "http://schema.org/valueReference"@,
        "valueReference"@,
    ]
}

pub open spec fn pv_unit_keys() -> Seq<Seq<char>> {
    seq![
        "https://schema.org/unitText"@,
        "http://schema.org/unitText"@,
        "unitText"@,
        "https://schema.org/unitCode"@,
        "http://schema.org/unitCode"@,
        "unitCode"@,
    ]
}

/// The label of a `PropertyValue` node: its name (or `PropertyValue`), then
/// `: value` and ` unit` as far as they resolve; nothing for other nodes.
pub open spec fn spec_pv_summary(n: NodeV) -> Option<Seq<char>> {
    if !crate::iri::spec_has_type(n.types, "PropertyValue"@) {
        None
    } else {
        let label = opt_or_empty_label(spec_property_text(n.props, pv_name_keys()));
        match spec_property_text(n.props, pv_value_keys()) {
            Some(v) => {
                let with_value = label + ": "@ + v;
                match spec_property_text(n.props, pv_unit_keys()) {
                    Some(u) => Some(with_value + " "@ + u),
                    None => Some(with_value),
                }
            },
            None => Some(label),
        }
    }
}

/// The resolved name, or the fixed `PropertyValue` label.
pub open spec fn opt_or_empty_label(o: Option<Seq<char>>) -> Seq<char> {
    match o {
        Some(s) => s,
        None => "PropertyValue"@,
    }
}

/// The `name: value unit` reading of a `PropertyValue` node.
pub fn property_value_summary(node: &GraphNode) -> (r: Option<String>)
    ensures
        match r {
            Some(s) => spec_pv_summary(nview(*node)) == Some(s@),
            None => spec_pv_summary(nview(*node)) is None,
        },
{
    if !crate::iri::has_schema_type(node, "PropertyValue") {
        return None;
    }
    proof {
        assert(
            seq![
                "https://schema.org/propertyID",
                "http://schema.org/propertyID",
                "propertyID",
                "https://schema.org/name",
                "http://schema.org/name",
                "name",
            ].map_values(|k: &str| k@) =~= pv_name_keys());
        assert(
            seq![
                "https://schema.org/value",
                "http://schema.org/value",
                "value",
                "https://schema.org/valueReference",
                "http://schema.org/valueReference",
                "valueReference",
            ].map_values(|k: &str| k@) =~= pv_value_keys());
        assert(
            seq![
                "https://schema.org/unitText",
                "http://schema.org/unitText",
                "unitText",
                "https://schema.org/unitCode",
                "http://schema.org/unitCode",
                "unitCode",
            ].map_values(|k: &str| k@) =~= pv_unit_keys());
    }
    let property = property_text(
        node,
        &[
            "https://schema.org/propertyID",
            "http://schema.org/propertyID",
            "propertyID",
            "https://schema.org/name",
            "http://schema.org/name",
            "name",
        ],
    );
    let value = property_text(
        node,
        &[
            "https://schema.org/value",
            "http://schema.org/value",
            "value",
            "https://schema.org/valueReference",
            "http://schema.org/valueReference",
            "valueReference",
        ],
    );
    let unit = property_text(
        node,
        &[
            "https://schema.org/unitText",
            "http://schema.org/unitText",
            "unitText",
            "https://schema.org/unitCode",
            "http://schema.org/unitCode",
            "unitCode",
        ],
    );
    let mut label: Vec<char> = match &property {
        Some(p) => crate::text::to_chars(p.as_str()),
        None => crate::text::to_chars("PropertyValue"),
    };
    match &value {
        Some(v) => {
            crate::text::push_str_chars(&mut label, ": ");
            crate::text::push_str_chars(&mut label, v.as_str());
            match &unit {
                Some(u) => {
                    crate::text::push_str_chars(&mut label, " ");
                    crate::text::push_str_chars(&mut label, u.as_str());
                },
                None => {},
            }
        },
        None => {},
    }
    Some(crate::text::from_chars(&label))
}


// ---------------------------------------------------------------------------
// Product groups.
// ---------------------------------------------------------------------------

/// The running price range of a group, in millionths.
pub struct PriceStats {
    pub min_micros: i64,
    pub max_micros: i64,
    pub currency: Option<String>,
}

/// One product group with its variants and aggregates.
pub struct ProductGroupSummary {
    pub name: Option<String>,
    pub product_group_id: Option<String>,
    pub brand: Option<String>,
    pub varies_by: Vec<String>,
    pub common_properties: Vec<(String, String)>,
    pub variants: Vec<VariantSummary>,
    pub total_variants: usize,
    pub price_stats: Option<PriceStats>,
    pub availability_counts: Vec<(String, u32)>,
}

/// View of the price range.
pub open spec fn psview(p: Option<PriceStats>) -> Option<(int, int, Option<Seq<char>>)> {
    match p {
        Some(s) => Some((s.min_micros as int, s.max_micros as int, opt_view(s.currency))),
        None => None,
    }
}

/// One variant folded into the running price range: the first priced variant
/// opens the range with its currency, later prices widen it, the first
/// non-empty currency is kept.
pub open spec fn spec_price_step(
    acc: Option<(int, int, Option<Seq<char>>)>,
    v: VSView,
) -> Option<(int, int, Option<Seq<char>>)> {
    match v.price_micros {
        Some(p) => match acc {
            Some((mn, mx, c)) => Some(
                (
                    if p < mn {
                        p as int
                    } else {
                        mn
                    },
                    if p > mx {
                        p as int
                    } else {
                        mx
                    },
                    if c is None {
                        v.price_currency
                    } else {
                        c
                    },
                ),
            ),
            None => Some((p as int, p as int, v.price_currency)),
        },
        None => acc,
    }
}

/// Index of the count recorded for `key`, or `-1`.
pub open spec fn count_index(counts: Seq<(Seq<char>, u32)>, key: Seq<char>) -> int
    decreases counts,
{
    if counts.len() == 0 {
        -1
    } else if counts.first().0 == key {
        0
    } else {
        let r = count_index(counts.drop_first(), key);
        if r < 0 {
            -1
        } else {
            r + 1
        }
    }
}

pub broadcast proof fn count_index_props(counts: Seq<(Seq<char>, u32)>, key: Seq<char>)
    ensures
        -1 <= #[trigger] count_index(counts, key) < counts.len(),
        count_index(counts, key) >= 0 ==> counts[count_index(counts, key)].0 == key,
        count_index(counts, key) == -1 ==> forall|j: int|
            0 <= j < counts.len() ==> counts[j].0 != key,
    decreases counts,
{
    if counts.len() > 0 && counts.first().0 != key {
        count_index_props(counts.drop_first(), key);
        assert forall|j: int|
            count_index(counts, key) == -1 && 0 <= j < counts.len() implies counts[j].0
            != key by {
            if j > 0 {
                assert(counts.drop_first()[j - 1] == counts[j]);
            }
        }
    }
}

/// One more sighting of a status: its count grows (saturating), a new status
/// starts at one.
pub open spec fn spec_tally(counts: Seq<(Seq<char>, u32)>, status: Seq<char>) -> Seq<(
    Seq<char>,
    u32,
)> {
    let i = count_index(counts, status);
    if i >= 0 {
        counts.update(
            i,
            (
                status,
                if counts[i].1 < 0xFFFFFFFFu32 {
                    (counts[i].1 + 1) as u32
                } else {
                    counts[i].1
                },
            ),
        )
    } else {
        counts.push((status, 1u32))
    }
}

pub open spec fn counts_view(counts: Seq<(String, u32)>) -> Seq<(Seq<char>, u32)> {
    counts.map_values(|p: (String, u32)| (p.0@, p.1))
}

/// Tally one status.
#[verifier::loop_isolation(false)]
fn tally(counts: &mut Vec<(String, u32)>, status: String)
    ensures
        counts_view(final(counts)@) == spec_tally(counts_view(old(counts)@), status@),
{
    let ghost cv = counts_view(counts@);
    proof {
        count_index_props(cv, status@);
        assert(cv.skip(0) =~= cv);
    }
    let sc = crate::text::to_chars(status.as_str());
    let mut i: usize = 0;
    while i < counts.len()
        invariant
            i <= counts@.len(),
            cv == counts_view(counts@),
            cv.len() == counts@.len(),
            sc@ == status@,
            count_index(cv, status@) == if count_index(cv.skip(i as int), status@) >= 0 {
                i + count_index(cv.skip(i as int), status@)
            } else {
                -1
            },
        decreases counts@.len() - i,
    {
        proof {
            count_index_props(cv.skip(i as int), status@);
            assert(cv.skip(i as int).first() == cv[i as int]);
        }
        if crate::text::chars_eq(crate::text::to_chars(counts[i].0.as_str()).as_slice(), sc.as_slice()) {
            let c = counts[i].1;
            let newc: u32 = if c < 0xFFFFFFFFu32 {
                c + 1
            } else {
                c
            };
            counts.remove(i);
            counts.insert(i, (status, newc));
            proof {
                assert(counts_view(counts@) =~= spec_tally(cv, status@));
            }
            return ;
        }
        proof {
            assert(cv.skip(i as int).drop_first() =~= cv.skip(i + 1));
        }
        i = i + 1;
    }
    proof {
        assert(cv.skip(cv.len() as int) =~= Seq::<(Seq<char>, u32)>::empty());
    }
    counts.push((status, 1));
    proof {
        assert(counts_view(counts@) =~= spec_tally(cv, status@));
    }
}

/// Variant order for the table: no SKU first, then SKUs ascending.
pub open spec fn sku_le(a: Option<Seq<char>>, b: Option<Seq<char>>) -> bool {
    match (a, b) {
        (Option::None, _) => true,
        (Option::Some(_), Option::None) => false,
        (Option::Some(x), Option::Some(y)) => crate::graph::lex_le(x, y),
    }
}

/// Insert a variant behind every earlier variant whose SKU is not larger.
pub open spec fn spec_insert_variant(sorted: Seq<VSView>, v: VSView) -> Seq<VSView>
    decreases sorted.len(),
{
    if sorted.len() == 0 {
        seq![v]
    } else if sku_le(v.sku, sorted.first().sku) && v.sku != sorted.first().sku {
        seq![v] + sorted
    } else if !sku_le(sorted.first().sku, v.sku) {
        seq![v] + sorted
    } else {
        seq![sorted.first()] + spec_insert_variant(sorted.drop_first(), v)
    }
}

fn sku_le_exec(a: &Option<String>, b: &Option<String>) -> (r: bool)
    ensures
        r == sku_le(opt_view(*a), opt_view(*b)),
{
    match (a, b) {
        (Option::None, _) => true,
        (Option::Some(_), Option::None) => false,
        (Option::Some(x), Option::Some(y)) => crate::graph::lex_le_exec(
            crate::text::to_chars(x.as_str()).as_slice(),
            crate::text::to_chars(y.as_str()).as_slice(),
        ),
    }
}

#[verifier::loop_isolation(false)]
fn prepend_variant(v: VariantSummary, rest: Vec<VariantSummary>) -> (r: Vec<VariantSummary>)
    ensures
        r@.map_values(|x: VariantSummary| vsview(x)) == seq![vsview(v)] + rest@.map_values(
            |x: VariantSummary| vsview(x),
        ),
{
    let ghost vv = vsview(v);
    let mut out: Vec<VariantSummary> = Vec::new();
    out.push(v);
    let ghost rv = rest@.map_values(|x: VariantSummary| vsview(x));
    let mut rest = rest;
    proof {
        assert(rest@.map_values(|x: VariantSummary| vsview(x)) =~= rv.skip(0));
    }
    while rest.len() > 0
        invariant
            out@.len() >= 1,
            out@.len() + rest@.len() == rv.len() + 1,
            vsview(out@[0]) == vv,
            rest@.map_values(|x: VariantSummary| vsview(x)) =~= rv.skip(out@.len() - 1),
            out@.map_values(|x: VariantSummary| vsview(x)) =~= seq![vv] + rv.take(
                out@.len() - 1,
            ),
        decreases rest@.len(),
    {
        let ghost restv = rest@.map_values(|x: VariantSummary| vsview(x));
        let ghost outv = out@.map_values(|x: VariantSummary| vsview(x));
        let nxt = rest.remove(0);
        out.push(nxt);
        proof {
            assert(rest@.map_values(|x: VariantSummary| vsview(x)) =~= restv.drop_first());
            assert(restv.drop_first() =~= rv.skip(out@.len() - 1));
            assert(out@.map_values(|x: VariantSummary| vsview(x)) =~= outv.push(restv[0]));
            assert(rv.take(out@.len() - 1) =~= rv.take(out@.len() - 2).push(
                rv[out@.len() - 2],
            ));
            assert(out@.map_values(|x: VariantSummary| vsview(x)) =~= seq![vv] + rv.take(
                out@.len() - 1,
            ));
        }
    }
    proof {
        assert(rv.take(out@.len() - 1) =~= rv);
        assert(out@.map_values(|x: VariantSummary| vsview(x)) =~= seq![vv] + rv);
    }
    out
}

fn insert_variant(sorted: Vec<VariantSummary>, v: VariantSummary) -> (r: Vec<VariantSummary>)
    ensures
        r@.map_values(|x: VariantSummary| vsview(x)) == spec_insert_variant(
            sorted@.map_values(|x: VariantSummary| vsview(x)),
            vsview(v),
        ),
    decreases sorted@.len(),
{
    let ghost sv = sorted@.map_values(|x: VariantSummary| vsview(x));
    let ghost vv = vsview(v);
    let mut sorted = sorted;
    if sorted.len() == 0 {
        let mut out: Vec<VariantSummary> = Vec::new();
        out.push(v);
        proof {
            assert(out@.map_values(|x: VariantSummary| vsview(x)) =~= seq![vv]);
        }
        out
    } else {
        let le_first = sku_le_exec(&v.sku, &sorted[0].sku);
        let first_le = sku_le_exec(&sorted[0].sku, &v.sku);
        let eq_sku = match (&v.sku, &sorted[0].sku) {
            (Option::None, Option::None) => true,
            (Option::Some(x), Option::Some(y)) => crate::text::chars_eq(
                crate::text::to_chars(x.as_str()).as_slice(),
                crate::text::to_chars(y.as_str()).as_slice(),
            ),
            _ => false,
        };
        proof {
            assert(eq_sku == (opt_view(v.sku) == opt_view(sorted@[0].sku)));
            assert(sv.first() == vsview(sorted@[0]));
        }
        if (le_first && !eq_sku) || !first_le {
            let r = prepend_variant(v, sorted);
            proof {
                assert(r@.map_values(|x: VariantSummary| vsview(x)) =~= spec_insert_variant(
                    sv,
                    vv,
                ));
            }
            r
        } else {
            let first = sorted.remove(0);
            let ghost fv = vsview(first);
            proof {
                assert(sorted@.map_values(|x: VariantSummary| vsview(x)) =~= sv.drop_first());
                assert(fv == sv.first());
            }
            let rest = insert_variant(sorted, v);
            let r = prepend_variant(first, rest);
            proof {
                assert(r@.map_values(|x: VariantSummary| vsview(x)) =~= seq![fv]
                    + spec_insert_variant(sv.drop_first(), vv));
                assert(r@.map_values(|x: VariantSummary| vsview(x)) =~= spec_insert_variant(
                    sv,
                    vv,
                ));
            }
            r
        }
    }
}


/// View of a product group summary.
#[verifier::ext_equal]
pub struct PGView {
    pub name: Option<Seq<char>>,
    pub product_group_id: Option<Seq<char>>,
    pub brand: Option<Seq<char>>,
    pub varies_by: Seq<Seq<char>>,
    pub common_properties: Seq<(Seq<char>, Seq<char>)>,
    pub variants: Seq<VSView>,
    pub total_variants: int,
    pub price_stats: Option<(int, int, Option<Seq<char>>)>,
    pub availability_counts: Seq<(Seq<char>, u32)>,
}

/// The views of a sequence of variant summaries.
pub open spec fn vs_views(s: Seq<VariantSummary>) -> Seq<VSView> {
    s.map_values(|x: VariantSummary| vsview(x))
}

/// The views of a sequence of group summaries.
pub open spec fn pg_views(s: Seq<ProductGroupSummary>) -> Seq<PGView> {
    s.map_values(|g: ProductGroupSummary| pgview(g))
}

pub open spec fn pgview(s: ProductGroupSummary) -> PGView {
    PGView {
        name: opt_view(s.name),
        product_group_id: opt_view(s.product_group_id),
        brand: opt_view(s.brand),
        varies_by: crate::text::strs_view(s.varies_by@),
        common_properties: pairs_view(s.common_properties@),
        variants: vs_views(s.variants@),
        total_variants: s.total_variants as int,
        price_stats: psview(s.price_stats),
        availability_counts: counts_view(s.availability_counts@),
    }
}

pub open spec fn group_id_keys() -> Seq<Seq<char>> {
    seq![
        "https://schema.org/productGroupID"@,
        "http://schema.org/productGroupID"@,
        "productGroupID"@,
    ]
}

pub open spec fn varies_by_keys() -> Seq<Seq<char>> {
    seq!["https://schema.org/variesBy"@, "http://schema.org/variesBy"@, "variesBy"@]
}

pub open spec fn product_id_keys() -> Seq<Seq<char>> {
    seq![
        "https://schema.org/productID"@,
        "http://schema.org/productID"@,
        "productID"@,
        "https://schema.org/sku"@,
        "http://schema.org/sku"@,
        "sku"@,
    ]
}

/// The fold over the first `i` outgoing edges of group `g`: the variants in
/// edge order, their count, the availability tallies, and the price range.
pub open spec fn spec_group_fold(adjacency: Adjacency, graph: KnowledgeGraph, g: int, i: int) -> (
    Seq<VSView>,
    int,
    Seq<(Seq<char>, u32)>,
    Option<(int, int, Option<Seq<char>>)>,
)
    decreases i,
{
    if i <= 0 {
        (
            Seq::<VSView>::empty(),
            0,
            Seq::<(Seq<char>, u32)>::empty(),
            None,
        )
    } else {
        let prev = spec_group_fold(adjacency, graph, g, i - 1);
        let nodes = gview(graph).nodes;
        let out = spec_outgoing(edges_view(adjacency.edges@), nodes[g].id);
        if i > out.len() {
            prev
        } else {
            let e = out[i - 1];
            let k = crate::graph::node_index(nodes, e.to);
            if spec_ends_with(e.predicate, "hasVariant"@) && k >= 0 {
                let v = spec_variant_of(adjacency, graph, k);
                (
                    prev.0.push(v),
                    prev.1 + 1,
                    match v.availability {
                        Some(a) => spec_tally(prev.2, a),
                        None => prev.2,
                    },
                    spec_price_step(prev.3, v),
                )
            } else {
                prev
            }
        }
    }
}

/// The first `n` variants sorted by SKU, equal SKUs keeping their order.
pub open spec fn spec_sort_variants(vs: Seq<VSView>, n: int) -> Seq<VSView>
    decreases n,
{
    if n <= 0 || n > vs.len() {
        Seq::<VSView>::empty()
    } else {
        spec_insert_variant(spec_sort_variants(vs, n - 1), vs[n - 1])
    }
}

/// Index in `nodes` of the first `hasVariant` target that exists and whose
/// SKU text equals `sku`, or `-1`.
pub open spec fn spec_first_sku_match(
    out: Seq<EdgeV>,
    nodes: Seq<NodeV>,
    sku: Option<Seq<char>>,
) -> int
    decreases out,
{
    if out.len() == 0 {
        -1
    } else {
        let k = crate::graph::node_index(nodes, out.first().to);
        if spec_ends_with(out.first().predicate, "hasVariant"@) && k >= 0 && spec_property_text(
            nodes[k].props,
            sku_keys(),
        ) == sku {
            k
        } else {
            spec_first_sku_match(out.drop_first(), nodes, sku)
        }
    }
}

/// The brand text of a group: the name of the first `brand` edge's target.
pub open spec fn spec_brand(out: Seq<EdgeV>, nodes: Seq<NodeV>) -> Option<Seq<char>> {
    match spec_first_edge_target(out, "brand"@) {
        Some(t) => {
            let k = crate::graph::node_index(nodes, t);
            if k >= 0 {
                spec_property_text(nodes[k].props, name_keys())
            } else {
                None
            }
        },
        None => None,
    }
}

/// The whole summary of the group at node index `g`.
pub open spec fn spec_group_of(adjacency: Adjacency, graph: KnowledgeGraph, g: int) -> PGView {
    let nodes = gview(graph).nodes;
    let props = nodes[g].props;
    let out = spec_outgoing(edges_view(adjacency.edges@), nodes[g].id);
    let fold = spec_group_fold(adjacency, graph, g, out.len() as int);
    let varies = spec_property_list(props, varies_by_keys());
    let sorted = spec_sort_variants(fold.0, fold.0.len() as int);
    PGView {
        name: spec_property_text(props, name_keys()),
        product_group_id: spec_property_text(props, group_id_keys()),
        brand: spec_brand(out, nodes),
        varies_by: varies,
        common_properties: if sorted.len() > 0 {
            let k = spec_first_sku_match(out, nodes, sorted[0].sku);
            if k >= 0 {
                let vout = spec_outgoing(edges_view(adjacency.edges@), nodes[k].id);
                let additional = spec_additional(vout, nodes, vout.len() as int);
                spec_common_additional(
                    spec_common_direct(nodes[k].props, varies, direct_names().len() as int),
                    additional,
                    varies,
                    additional.len() as int,
                )
            } else {
                Seq::<(Seq<char>, Seq<char>)>::empty()
            }
        } else {
            Seq::<(Seq<char>, Seq<char>)>::empty()
        },
        variants: sorted,
        total_variants: fold.1,
        price_stats: fold.3,
        availability_counts: fold.2,
    }
}

/// The group summaries of the first `i` nodes, one per `ProductGroup`.
pub open spec fn spec_groups(adjacency: Adjacency, graph: KnowledgeGraph, i: int) -> Seq<PGView>
    decreases i,
{
    if i <= 0 || i > gview(graph).nodes.len() {
        Seq::<PGView>::empty()
    } else {
        let prev = spec_groups(adjacency, graph, i - 1);
        if crate::iri::spec_has_type(gview(graph).nodes[i - 1].types, "ProductGroup"@) {
            prev.push(spec_group_of(adjacency, graph, i - 1))
        } else {
            prev
        }
    }
}


/// Build the summary of one group node (at index `g` of the graph's nodes).
#[verifier::loop_isolation(false)]
#[verifier::rlimit(50)]
fn build_group(
    adjacency: &Adjacency,
    graph: &KnowledgeGraph,
    node: &GraphNode,
    Ghost(g): Ghost<int>,
) -> (r: ProductGroupSummary)
    requires
        0 <= g < gview(*graph).nodes.len(),
        gview(*graph).nodes[g] == nview(*node),
    ensures
        pgview(r) == spec_group_of(*adjacency, *graph, g),
{
    let ghost nodes = gview(*graph).nodes;
    let ghost out = spec_outgoing(edges_view(adjacency.edges@), nodes[g].id);
    proof {
        assert(seq!["https://schema.org/name", "http://schema.org/name", "name"].map_values(
            |k: &str| k@,
        ) =~= name_keys());
        assert(
            seq![
                "https://schema.org/productGroupID",
                "http://schema.org/productGroupID",
                "productGroupID",
            ].map_values(|k: &str| k@) =~= group_id_keys());
        assert(
            seq!["https://schema.org/variesBy", "http://schema.org/variesBy", "variesBy"]
                .map_values(|k: &str| k@) =~= varies_by_keys());
    }
    let name = property_text(
        node,
        &["https://schema.org/name", "http://schema.org/name", "name"],
    );
    let product_group_id = property_text(
        node,
        &[
            "https://schema.org/productGroupID",
            "http://schema.org/productGroupID",
            "productGroupID",
        ],
    );
    let varies_by = property_list(
        node,
        &["https://schema.org/variesBy", "http://schema.org/variesBy", "variesBy"],
    );
    let out_edges = adjacency.outgoing(node.id.as_str());
    // the brand edge
    let brand = match first_edge_target(&out_edges, "brand") {
        Some(t) => {
            match find_node(graph, t.as_str()) {
                Some(brand_node) => {
                    proof {
                        assert(nview(*brand_node) == nodes[crate::graph::node_index(
                            nodes,
                            t@,
                        )]);
                    }
                    property_text(
                        brand_node,
                        &["https://schema.org/name", "http://schema.org/name", "name"],
                    )
                },
                None => None,
            }
        },
        None => None,
    };
    proof {
        assert(opt_view(brand) == spec_brand(out, nodes));
    }
    // the variants, their count, tallies, and price range
    let mut variants: Vec<VariantSummary> = Vec::new();
    let mut total_variants: usize = 0;
    let mut counts: Vec<(String, u32)> = Vec::new();
    let mut price_stats: Option<PriceStats> = None;
    let mut i: usize = 0;
    proof {
        assert(variants@.map_values(|x: VariantSummary| vsview(x)) =~= Seq::<VSView>::empty());
        assert(counts_view(counts@) =~= Seq::<(Seq<char>, u32)>::empty());
    }
    while i < out_edges.len()
        invariant
            i <= out_edges@.len(),
            out == edges_view(out_edges@),
            out.len() == out_edges@.len(),
            total_variants <= i,
            ({
                let fold = spec_group_fold(*adjacency, *graph, g, i as int);
                &&& variants@.map_values(|x: VariantSummary| vsview(x)) == fold.0
                &&& total_variants as int == fold.1
                &&& counts_view(counts@) == fold.2
                &&& psview(price_stats) == fold.3
            }),
        decreases out_edges@.len() - i,
    {
        proof {
            assert(out[i as int] == eview(out_edges@[i as int]));
        }
        if crate::iri::predicate_matches(out_edges[i].predicate.as_str(), "hasVariant") {
            let target = find_node(graph, out_edges[i].to.as_str());
            match target {
                Some(product_node) => {
                    proof {
                        assert(nview(*product_node) == nodes[crate::graph::node_index(
                            nodes,
                            out[i as int].to,
                        )]);
                    }
                    let variant = summarize_variant(product_node, adjacency, graph);
                    match &variant.availability {
                        Some(status) => {
                            tally(&mut counts, status.clone());
                        },
                        None => {},
                    }
                    match variant.price_micros {
                        Some(p) => {
                            price_stats = match price_stats {
                                Some(stats) => {
                                    let min_micros = if p < stats.min_micros {
                                        p
                                    } else {
                                        stats.min_micros
                                    };
                                    let max_micros = if p > stats.max_micros {
                                        p
                                    } else {
                                        stats.max_micros
                                    };
                                    let currency = match stats.currency {
                                        Some(c) => Some(c),
                                        None => match &variant.price_currency {
                                            Some(c) => Some(c.clone()),
                                            None => None,
                                        },
                                    };
                                    Some(PriceStats { min_micros, max_micros, currency })
                                },
                                None => Some(
                                    PriceStats {
                                        min_micros: p,
                                        max_micros: p,
                                        currency: match &variant.price_currency {
                                            Some(c) => Some(c.clone()),
                                            None => None,
                                        },
                                    },
                                ),
                            };
                        },
                        None => {},
                    }
                    total_variants = total_variants + 1;
                    let ghost prevv = variants@.map_values(|x: VariantSummary| vsview(x));
                    let ghost vv = vsview(variant);
                    variants.push(variant);
                    proof {
                        assert(variants@.map_values(|x: VariantSummary| vsview(x)) =~= prevv.push(
                            vv,
                        ));
                    }
                },
                None => {},
            }
        }
        i = i + 1;
    }
    // sort the variants by SKU
    let ghost unsorted = variants@.map_values(|x: VariantSummary| vsview(x));
    let mut sorted: Vec<VariantSummary> = Vec::new();
    let mut rest = variants;
    let ghost mut done: int = 0;
    proof {
        assert(rest@.map_values(|x: VariantSummary| vsview(x)) =~= unsorted.skip(0));
        assert(sorted@.map_values(|x: VariantSummary| vsview(x)) =~= spec_sort_variants(
            unsorted,
            0,
        ));
    }
    while rest.len() > 0
        invariant
            0 <= done,
            done + rest@.len() == unsorted.len(),
            rest@.map_values(|x: VariantSummary| vsview(x)) =~= unsorted.skip(done),
            sorted@.map_values(|x: VariantSummary| vsview(x)) == spec_sort_variants(
                unsorted,
                done,
            ),
        decreases rest@.len(),
    {
        let ghost restv = rest@.map_values(|x: VariantSummary| vsview(x));
        let nxt = rest.remove(0);
        proof {
            assert(vsview(nxt) == restv[0]);
            assert(unsorted.skip(done)[0] == unsorted[done]);
            assert(rest@.map_values(|x: VariantSummary| vsview(x)) =~= restv.drop_first());
            assert(restv.drop_first() =~= unsorted.skip(done + 1));
        }
        sorted = insert_variant(sorted, nxt);
        proof {
            done = done + 1;
        }
    }
    proof {
        assert(unsorted.skip(done).len() == 0);
        assert(done == unsorted.len());
    }
    // common properties, taken from the variant whose SKU sorts first
    let common_properties: Vec<(String, String)> = if sorted.len() > 0 {
        let ghost sortedv = sorted@.map_values(|x: VariantSummary| vsview(x));
        let first_sku = match &sorted[0].sku {
            Some(s) => Some(s.clone()),
            None => None,
        };
        proof {
            assert(opt_view(first_sku) == sortedv[0].sku);
            assert(out.skip(0) =~= out);
        }
        let mut found: Vec<(String, String)> = Vec::new();
        let mut have = false;
        let mut i: usize = 0;
        while i < out_edges.len()
            invariant
                i <= out_edges@.len(),
                out == edges_view(out_edges@),
                out.len() == out_edges@.len(),
                spec_first_sku_match(out, nodes, opt_view(first_sku)) == spec_first_sku_match(
                    out.skip(i as int),
                    nodes,
                    opt_view(first_sku),
                ),
                !have,
                found@.len() == 0,
            decreases out_edges@.len() - i,
        {
            proof {
                assert(out.skip(i as int).first() == out[i as int]);
                assert(out.skip(i as int).drop_first() =~= out.skip(i + 1));
                assert(out[i as int] == eview(out_edges@[i as int]));
                assert(seq!["https://schema.org/sku", "http://schema.org/sku", "sku"].map_values(
                    |k: &str| k@,
                ) =~= sku_keys());
            }
            if crate::iri::predicate_matches(out_edges[i].predicate.as_str(), "hasVariant") {
                let target = find_node(graph, out_edges[i].to.as_str());
                match target {
                    Some(variant_node) => {
                        proof {
                            assert(nview(*variant_node) == nodes[crate::graph::node_index(
                                nodes,
                                out[i as int].to,
                            )]);
                        }
                        let variant_sku = property_text(
                            variant_node,
                            &["https://schema.org/sku", "http://schema.org/sku", "sku"],
                        );
                        let skus_equal = match (&variant_sku, &first_sku) {
                            (Option::None, Option::None) => true,
                            (Option::Some(x), Option::Some(y)) => crate::text::chars_eq(
                                crate::text::to_chars(x.as_str()).as_slice(),
                                crate::text::to_chars(y.as_str()).as_slice(),
                            ),
                            _ => false,
                        };
                        proof {
                            assert(skus_equal == (opt_view(variant_sku) == opt_view(first_sku)));
                        }
                        if skus_equal {
                            proof {
                                assert(spec_first_sku_match(out, nodes, opt_view(first_sku))
                                    == crate::graph::node_index(nodes, out[i as int].to));
                            }
                            let common = extract_common_properties(
                                variant_node,
                                adjacency,
                                graph,
                                &varies_by,
                            );
                            proof {
                                assert(pairs_view(common@) == spec_group_of(
                                    *adjacency,
                                    *graph,
                                    g,
                                ).common_properties);
                            }
                            found = common;
                            have = true;
                            break ;
                        }
                    },
                    None => {},
                }
            }
            i = i + 1;
        }
        proof {
            if !have {
                assert(spec_first_sku_match(out, nodes, opt_view(first_sku)) == -1) by {
                    assert(out.skip(out.len() as int).len() == 0);
                }
                assert(pairs_view(found@) =~= Seq::<(Seq<char>, Seq<char>)>::empty());
            }
        }
        found
    } else {
        Vec::new()
    };
    let r = ProductGroupSummary {
        name,
        product_group_id,
        brand,
        varies_by,
        common_properties,
        variants: sorted,
        total_variants,
        price_stats,
        availability_counts: counts,
    };
    proof {
        assert(pairs_view(r.common_properties@) == spec_group_of(
            *adjacency,
            *graph,
            g,
        ).common_properties);
        assert(pgview(r) =~= spec_group_of(*adjacency, *graph, g));
    }
    r
}


/// Index of the first node typed `Product`, or `-1`.
pub open spec fn product_index(nodes: Seq<NodeV>) -> int
    decreases nodes,
{
    if nodes.len() == 0 {
        -1
    } else if crate::iri::spec_has_type(nodes.first().types, "Product"@) {
        0
    } else {
        let r = product_index(nodes.drop_first());
        if r < 0 {
            -1
        } else {
            r + 1
        }
    }
}

/// The implicit single-variant summary of the standalone product at `p`.
pub open spec fn spec_fallback_group(adjacency: Adjacency, graph: KnowledgeGraph, p: int) -> PGView {
    let nodes = gview(graph).nodes;
    let props = nodes[p].props;
    let out = spec_outgoing(edges_view(adjacency.edges@), nodes[p].id);
    let v = spec_variant_of(adjacency, graph, p);
    PGView {
        name: spec_property_text(props, name_keys()),
        product_group_id: spec_property_text(props, product_id_keys()),
        brand: spec_brand(out, nodes),
        varies_by: Seq::<Seq<char>>::empty(),
        common_properties: Seq::<(Seq<char>, Seq<char>)>::empty(),
        variants: seq![v],
        total_variants: 1,
        price_stats: spec_price_step(None, v),
        availability_counts: match v.availability {
            Some(a) => spec_tally(Seq::<(Seq<char>, u32)>::empty(), a),
            None => Seq::<(Seq<char>, u32)>::empty(),
        },
    }
}

/// Every `ProductGroup` node summarized, in node order; with no group and at
/// least one `Product` node, the first such node as one implicit
/// single-variant group.
#[verifier::loop_isolation(false)]
#[verifier::rlimit(60)]
#[verifier::spinoff_prover]
pub fn extract_product_groups(
    graph: &KnowledgeGraph,
    adjacency: &Adjacency,
) -> (r: Vec<ProductGroupSummary>)
    ensures
        spec_groups(*adjacency, *graph, gview(*graph).nodes.len() as int).len() > 0
            ==> r@.map_values(|s: ProductGroupSummary| pgview(s)) == spec_groups(
            *adjacency,
            *graph,
            gview(*graph).nodes.len() as int,
        ),
        spec_groups(*adjacency, *graph, gview(*graph).nodes.len() as int).len() == 0 ==> ({
            let p = product_index(gview(*graph).nodes);
            if p >= 0 {
                r@.map_values(|s: ProductGroupSummary| pgview(s)) == seq![
                    spec_fallback_group(*adjacency, *graph, p),
                ]
            } else {
                r@.len() == 0
            }
        }),
{
    let ghost nodes = gview(*graph).nodes;
    let mut result: Vec<ProductGroupSummary> = Vec::new();
    let mut i: usize = 0;
    proof {
        assert(result@.map_values(|s: ProductGroupSummary| pgview(s)) =~= spec_groups(
            *adjacency,
            *graph,
            0,
        ));
        assert(nodes.len() == graph.nodes@.len());
    }
    while i < graph.nodes.len()
        invariant
            i <= graph.nodes@.len(),
            nodes == gview(*graph).nodes,
            nodes.len() == graph.nodes@.len(),
            result@.map_values(|s: ProductGroupSummary| pgview(s)) == spec_groups(
                *adjacency,
                *graph,
                i as int,
            ),
        decreases graph.nodes@.len() - i,
    {
        proof {
            assert(nodes[i as int] == nview(graph.nodes@[i as int]));
        }
        if crate::iri::has_schema_type(&graph.nodes[i], "ProductGroup") {
            let summary = build_group(adjacency, graph, &graph.nodes[i], Ghost(i as int));
            let ghost prev = result@.map_values(|s: ProductGroupSummary| pgview(s));
            result.push(summary);
            proof {
                assert(result@.map_values(|s: ProductGroupSummary| pgview(s)) =~= prev.push(
                    spec_group_of(*adjacency, *graph, i as int),
                ));
            }
        }
        i = i + 1;
    }
    if result.len() == 0 {
        // no group: the first standalone product is one implicit variant
        proof {
            assert(nodes.skip(0) =~= nodes);
        }
        let mut k: usize = 0;
        while k < graph.nodes.len()
            invariant
                k <= graph.nodes@.len(),
                nodes == gview(*graph).nodes,
                nodes.len() == graph.nodes@.len(),
                result@.len() == 0,
                spec_groups(*adjacency, *graph, nodes.len() as int).len() == 0,
                product_index(nodes) == if product_index(nodes.skip(k as int)) >= 0 {
                    k + product_index(nodes.skip(k as int))
                } else {
                    -1
                },
            decreases graph.nodes@.len() - k,
        {
            proof {
                assert(nodes.skip(k as int).first() == nodes[k as int]);
                assert(nodes.skip(k as int).drop_first() =~= nodes.skip(k + 1));
                assert(nodes[k as int] == nview(graph.nodes@[k as int]));
                assert(seq!["https://schema.org/name", "http://schema.org/name", "name"]
                    .map_values(|k: &str| k@) =~= name_keys());
                assert(
                    seq![
                        "https://schema.org/productID",
                        "http://schema.org/productID",
                        "productID",
                        "https://schema.org/sku",
                        "http://schema.org/sku",
                        "sku",
                    ].map_values(|k: &str| k@) =~= product_id_keys());
            }
            if crate::iri::has_schema_type(&graph.nodes[k], "Product") {
                proof {
                    assert(product_index(nodes) == k as int);
                }
                let product = &graph.nodes[k];
                let name = property_text(
                    product,
                    &["https://schema.org/name", "http://schema.org/name", "name"],
                );
                let product_group_id = property_text(
                    product,
                    &[
                        "https://schema.org/productID",
                        "http://schema.org/productID",
                        "productID",
                        "https://schema.org/sku",
                        "http://schema.org/sku",
                        "sku",
                    ],
                );
                let out_edges = adjacency.outgoing(product.id.as_str());
                let brand = match first_edge_target(&out_edges, "brand") {
                    Some(t) => {
                        match find_node(graph, t.as_str()) {
                            Some(brand_node) => {
                                proof {
                                    assert(nview(*brand_node) == nodes[crate::graph::node_index(
                                        nodes,
                                        t@,
                                    )]);
                                }
                                property_text(
                                    brand_node,
                                    &["https://schema.org/name", "http://schema.org/name", "name"],
                                )
                            },
                            None => None,
                        }
                    },
                    None => None,
                };
                let variant = summarize_variant(product, adjacency, graph);
                let ghost vv = vsview(variant);
                let mut counts: Vec<(String, u32)> = Vec::new();
                proof {
                    assert(counts_view(counts@) =~= Seq::<(Seq<char>, u32)>::empty());
                }
                match &variant.availability {
                    Some(status) => {
                        tally(&mut counts, status.clone());
                    },
                    None => {},
                }
                let price_stats = match variant.price_micros {
                    Some(p) => Some(
                        PriceStats {
                            min_micros: p,
                            max_micros: p,
                            currency: match &variant.price_currency {
                                Some(c) => Some(c.clone()),
                                None => None,
                            },
                        },
                    ),
                    None => None,
                };
                let mut variants: Vec<VariantSummary> = Vec::new();
                variants.push(variant);
                let s = ProductGroupSummary {
                    name,
                    product_group_id,
                    brand,
                    varies_by: Vec::new(),
                    common_properties: Vec::new(),
                    variants,
                    total_variants: 1,
                    price_stats,
                    availability_counts: counts,
                };
                proof {
                    assert(s.variants@.map_values(|x: VariantSummary| vsview(x)) =~= seq![vv]);
                    assert(s.varies_by@.map_values(|t: String| t@) =~= Seq::<Seq<char>>::empty());
                    assert(pairs_view(s.common_properties@) =~= Seq::<(
                        Seq<char>,
                        Seq<char>,
                    )>::empty());
                    assert(pgview(s) =~= spec_fallback_group(*adjacency, *graph, k as int));
                }
                result.push(s);
                proof {
                    assert(result@.map_values(|s: ProductGroupSummary| pgview(s)) =~= seq![
                        spec_fallback_group(*adjacency, *graph, k as int),
                    ]);
                }
                return result;
            }
            k = k + 1;
        }
        proof {
            assert(nodes.skip(nodes.len() as int).len() == 0);
        }
    }
    result
}

// ---------------------------------------------------------------------------
// Organizations, web pages, and the generic fallback.
// ---------------------------------------------------------------------------

/// The fields read off an organization node and its address and rating.
pub struct OrganizationSummary {
    pub name: Option<String>,
    pub logo: Option<String>,
    pub telephone: Option<String>,
    pub email: Option<String>,
    pub street: Option<String>,
    pub locality: Option<String>,
    pub postal_code: Option<String>,
    pub country: Option<String>,
    pub rating_value: Option<String>,
    pub review_count: Option<String>,
}

pub open spec fn keys3(a: Seq<char>, b: Seq<char>, c: Seq<char>) -> Seq<Seq<char>> {
    seq![a, b, c]
}

/// Option of text equal to a property lookup.
pub open spec fn text_matches(
    r: Option<String>,
    props: Seq<(Seq<char>, JsonV)>,
    keys: Seq<Seq<char>>,
) -> bool {
    match r {
        Some(t) => spec_property_text(props, keys) == Some(t@),
        None => spec_property_text(props, keys) is None,
    }
}

/// What the address-edge target contributes: the four address fields when
/// the first `address` edge's target exists, all absent otherwise.
pub open spec fn org_address_ok(r: OrganizationSummary, out: Seq<EdgeV>, nodes: Seq<NodeV>) -> bool {
    match spec_first_edge_target(out, "address"@) {
        Some(t) => {
            let k = crate::graph::node_index(nodes, t);
            if k >= 0 {
                &&& text_matches(r.street, nodes[k].props, keys3(
                    "https://schema.org/streetAddress"@,
                    "http://schema.org/streetAddress"@,
                    "streetAddress"@,
                ))
                &&& text_matches(r.locality, nodes[k].props, keys3(
                    "https://schema.org/addressLocality"@,
                    "http://schema.org/addressLocality"@,
                    "addressLocality"@,
                ))
                &&& text_matches(r.postal_code, nodes[k].props, keys3(
                    "https://schema.org/postalCode"@,
                    "http://schema.org/postalCode"@,
                    "postalCode"@,
                ))
                &&& text_matches(r.country, nodes[k].props, keys3(
                    "https://schema.org/addressCountry"@,
                    "http://schema.org/addressCountry"@,
                    "addressCountry"@,
                ))
            } else {
                r.street is None && r.locality is None && r.postal_code is None && r.country
                    is None
            }
        },
        None => r.street is None && r.locality is None && r.postal_code is None && r.country
            is None,
    }
}

/// What the rating-edge target contributes.
pub open spec fn org_rating_ok(r: OrganizationSummary, out: Seq<EdgeV>, nodes: Seq<NodeV>) -> bool {
    match spec_first_edge_target(out, "aggregateRating"@) {
        Some(t) => {
            let k = crate::graph::node_index(nodes, t);
            if k >= 0 {
                &&& text_matches(r.rating_value, nodes[k].props, keys3(
                    "https://schema.org/ratingValue"@,
                    "http://schema.org/ratingValue"@,
                    "ratingValue"@,
                ))
                &&& text_matches(r.review_count, nodes[k].props, keys3(
                    "https://schema.org/reviewCount"@,
                    "http://schema.org/reviewCount"@,
                    "reviewCount"@,
                ))
            } else {
                r.rating_value is None && r.review_count is None
            }
        },
        None => r.rating_value is None && r.review_count is None,
    }
}

/// Read an organization: name, logo, telephone and email from the node, the
/// address fields from the first `address` edge's target, the rating fields
/// from the first `aggregateRating` edge's target.
pub fn extract_organization(
    node: &GraphNode,
    adjacency: &Adjacency,
    graph: &KnowledgeGraph,
) -> (r: OrganizationSummary)
    ensures
        ({
            let props = nview(*node).props;
            &&& text_matches(
                r.name,
                props,
                keys3("https://schema.org/name"@, "http://schema.org/name"@, "name"@),
            )
            &&& text_matches(
                r.logo,
                props,
                keys3("https://schema.org/logo"@, "http://schema.org/logo"@, "logo"@),
            )
            &&& text_matches(
                r.telephone,
                props,
                keys3(
                    "https://schema.org/telephone"@,
                    "http://schema.org/telephone"@,
                    "telephone"@,
                ),
            )
            &&& text_matches(
                r.email,
                props,
                keys3("https://schema.org/email"@, "http://schema.org/email"@, "email"@),
            )
        }),
        org_address_ok(
            r,
            spec_outgoing(edges_view(adjacency.edges@), nview(*node).id),
            gview(*graph).nodes,
        ),
        org_rating_ok(
            r,
            spec_outgoing(edges_view(adjacency.edges@), nview(*node).id),
            gview(*graph).nodes,
        ),
{
    proof {
        assert(seq!["https://schema.org/name", "http://schema.org/name", "name"].map_values(
            |k: &str| k@,
        ) =~= keys3("https://schema.org/name"@, "http://schema.org/name"@, "name"@));
        assert(seq!["https://schema.org/logo", "http://schema.org/logo", "logo"].map_values(
            |k: &str| k@,
        ) =~= keys3("https://schema.org/logo"@, "http://schema.org/logo"@, "logo"@));
        assert(seq![
            "https://schema.org/telephone",
            "http://schema.org/telephone",
            "telephone",
        ].map_values(|k: &str| k@) =~= keys3(
            "https://schema.org/telephone"@,
            "http://schema.org/telephone"@,
            "telephone"@,
        ));
        assert(seq!["https://schema.org/email", "http://schema.org/email", "email"].map_values(
            |k: &str| k@,
        ) =~= keys3("https://schema.org/email"@, "http://schema.org/email"@, "email"@));
    }
    let mut org = OrganizationSummary {
        name: property_text(
            node,
            &["https://schema.org/name", "http://schema.org/name", "name"],
        ),
        logo: property_text(
            node,
            &["https://schema.org/logo", "http://schema.org/logo", "logo"],
        ),
        telephone: property_text(
            node,
            &["https://schema.org/telephone", "http://schema.org/telephone", "telephone"],
        ),
        email: property_text(
            node,
            &["https://schema.org/email", "http://schema.org/email", "email"],
        ),
        street: None,
        locality: None,
        postal_code: None,
        country: None,
        rating_value: None,
        review_count: None,
    };
    let out_edges = adjacency.outgoing(node.id.as_str());
    let ghost out = spec_outgoing(edges_view(adjacency.edges@), nview(*node).id);
    let ghost nodes = gview(*graph).nodes;
    proof {
        assert(
            seq![
                "https://schema.org/streetAddress",
                "http://schema.org/streetAddress",
                "streetAddress",
            ].map_values(|k: &str| k@) =~= keys3(
            "https://schema.org/streetAddress"@,
            "http://schema.org/streetAddress"@,
            "streetAddress"@,
        ));
        assert(
            seq![
                "https://schema.org/addressLocality",
                "http://schema.org/addressLocality",
                "addressLocality",
            ].map_values(|k: &str| k@) =~= keys3(
            "https://schema.org/addressLocality"@,
            "http://schema.org/addressLocality"@,
            "addressLocality"@,
        ));
        assert(
            seq![
                "https://schema.org/postalCode",
                "http://schema.org/postalCode",
                "postalCode",
            ].map_values(|k: &str| k@) =~= keys3(
            "https://schema.org/postalCode"@,
            "http://schema.org/postalCode"@,
            "postalCode"@,
        ));
        assert(
            seq![
                "https://schema.org/addressCountry",
                "http://schema.org/addressCountry",
                "addressCountry",
            ].map_values(|k: &str| k@) =~= keys3(
            "https://schema.org/addressCountry"@,
            "http://schema.org/addressCountry"@,
            "addressCountry"@,
        ));
        assert(
            seq![
                "https://schema.org/ratingValue",
                "http://schema.org/ratingValue",
                "ratingValue",
            ].map_values(|k: &str| k@) =~= keys3(
            "https://schema.org/ratingValue"@,
            "http://schema.org/ratingValue"@,
            "ratingValue"@,
        ));
        assert(
            seq![
                "https://schema.org/reviewCount",
                "http://schema.org/reviewCount",
                "reviewCount",
            ].map_values(|k: &str| k@) =~= keys3(
            "https://schema.org/reviewCount"@,
            "http://schema.org/reviewCount"@,
            "reviewCount"@,
        ));
    }
    let address_target = first_edge_target(&out_edges, "address");
    match address_target {
        Some(target) => {
            match find_node(graph, target.as_str()) {
                Some(address_node) => {
                    proof {
                        assert(nview(*address_node) == nodes[crate::graph::node_index(
                            nodes,
                            target@,
                        )]);
                    }
                    org.street = property_text(
                        address_node,
                        &[
                            "https://schema.org/streetAddress",
                            "http://schema.org/streetAddress",
                            "streetAddress",
                        ],
                    );
                    org.locality = property_text(
                        address_node,
                        &[
                            "https://schema.org/addressLocality",
                            "http://schema.org/addressLocality",
                            "addressLocality",
                        ],
                    );
                    org.postal_code = property_text(
                        address_node,
                        &[
                            "https://schema.org/postalCode",
                            "http://schema.org/postalCode",
                            "postalCode",
                        ],
                    );
                    org.country = property_text(
                        address_node,
                        &[
                            "https://schema.org/addressCountry",
                            "http://schema.org/addressCountry",
                            "addressCountry",
                        ],
                    );
                },
                None => {},
            }
        },
        None => {},
    }
    let rating_target = first_edge_target(&out_edges, "aggregateRating");
    match rating_target {
        Some(target) => {
            match find_node(graph, target.as_str()) {
                Some(rating_node) => {
                    proof {
                        assert(nview(*rating_node) == nodes[crate::graph::node_index(
                            nodes,
                            target@,
                        )]);
                    }
                    org.rating_value = property_text(
                        rating_node,
                        &[
                            "https://schema.org/ratingValue",
                            "http://schema.org/ratingValue",
                            "ratingValue",
                        ],
                    );
                    org.review_count = property_text(
                        rating_node,
                        &[
                            "https://schema.org/reviewCount",
                            "http://schema.org/reviewCount",
                            "reviewCount",
                        ],
                    );
                },
                None => {},
            }
        },
        None => {},
    }
    proof {
        assert(org_address_ok(org, out, nodes));
        assert(org_rating_ok(org, out, nodes));
    }
    org
}

/// The fields read off a web page node.
pub struct WebPageSummary {
    pub url: Option<String>,
    pub speakable: Option<String>,
}

/// Read a web page node: its URL and its speakable text.
pub fn extract_webpage(node: &GraphNode) -> (r: WebPageSummary)
    ensures
        ({
            let props = nview(*node).props;
            &&& text_matches(
                r.url,
                props,
                keys3("https://schema.org/url"@, "http://schema.org/url"@, "url"@),
            )
            &&& text_matches(
                r.speakable,
                props,
                keys3(
                    "https://schema.org/speakable"@,
                    "http://schema.org/speakable"@,
                    "speakable"@,
                ),
            )
        }),
{
    proof {
        assert(seq!["https://schema.org/url", "http://schema.org/url", "url"].map_values(
            |k: &str| k@,
        ) =~= keys3("https://schema.org/url"@, "http://schema.org/url"@, "url"@));
        assert(seq![
            "https://schema.org/speakable",
            "http://schema.org/speakable",
            "speakable",
        ].map_values(|k: &str| k@) =~= keys3(
            "https://schema.org/speakable"@,
            "http://schema.org/speakable"@,
            "speakable"@,
        ));
    }
    WebPageSummary {
        url: property_text(node, &["https://schema.org/url", "http://schema.org/url", "url"]),
        speakable: property_text(
            node,
            &["https://schema.org/speakable", "http://schema.org/speakable", "speakable"],
        ),
    }
}

/// A node of no recognized kind: its identity, first type, and the display
/// forms of its scalar properties.
pub struct EntitySummary {
    pub id: String,
    pub entity_type: String,
    pub properties: Vec<(String, String)>,
}

/// The summarized properties of the first `i` entries: the short form of
/// each key paired with the display form of its value, empty displays
/// dropped, in property order.
pub open spec fn spec_generic_props(props: Seq<(Seq<char>, JsonV)>, i: int) -> Seq<(
    Seq<char>,
    Seq<char>,
)>
    decreases i,
{
    if i <= 0 || i > props.len() {
        Seq::<(Seq<char>, Seq<char>)>::empty()
    } else {
        let prev = spec_generic_props(props, i - 1);
        let d = spec_json_display(props[i - 1].1);
        if d.len() > 0 {
            prev.push((spec_shorten(props[i - 1].0), d))
        } else {
            prev
        }
    }
}

/// Summarize an unrecognized node: the short form of each property key with
/// the display form of its value (empty display forms dropped), under the
/// short form of its first type, or `Entity` when it carries none.
#[verifier::loop_isolation(false)]
pub fn extract_generic_entity(node: &GraphNode) -> (r: EntitySummary)
    ensures
        r.id@ == nview(*node).id,
        nview(*node).types.len() == 0 ==> r.entity_type@ == "Entity"@,
        nview(*node).types.len() > 0 ==> r.entity_type@ == spec_shorten(nview(*node).types[0]),
        r.properties@.map_values(|p: (String, String)| (p.0@, p.1@)) == spec_generic_props(
            nview(*node).props,
            nview(*node).props.len() as int,
        ),
{
    let ghost props = nview(*node).props;
    let mut properties: Vec<(String, String)> = Vec::new();
    let mut i: usize = 0;
    proof {
        assert(properties@.map_values(|p: (String, String)| (p.0@, p.1@)) =~= Seq::<(
            Seq<char>,
            Seq<char>,
        )>::empty());
        assert(props.len() == node.properties@.len());
    }
    while i < node.properties.len()
        invariant
            i <= node.properties@.len(),
            props == nview(*node).props,
            props.len() == node.properties@.len(),
            properties@.map_values(|p: (String, String)| (p.0@, p.1@)) == spec_generic_props(
                props,
                i as int,
            ),
        decreases node.properties@.len() - i,
    {
        proof {
            assert(props[i as int] == (node.properties@[i as int].0@, crate::json::jview(
                node.properties@[i as int].1,
            )));
        }
        let short_key = crate::iri::shorten_iri(node.properties[i].0.as_str());
        let display = crate::jsontext::json_value_display(&node.properties[i].1);
        if display.len() > 0 {
            let text = crate::text::from_chars(&display);
            let ghost prev = properties@.map_values(|p: (String, String)| (p.0@, p.1@));
            properties.push((short_key, text));
            proof {
                assert(properties@.map_values(|p: (String, String)| (p.0@, p.1@)) =~= prev.push((
                    spec_shorten(props[i as int].0),
                    spec_json_display(props[i as int].1),
                )));
            }
        }
        i = i + 1;
    }
    let entity_type = if node.types.len() > 0 {
        crate::iri::shorten_iri(node.types[0].as_str())
    } else {
        crate::text::from_chars(&crate::text::to_chars("Entity"))
    };
    proof {
        if nview(*node).types.len() > 0 {
            assert(nview(*node).types[0] == node.types@[0]@);
        }
    }
    EntitySummary { id: node.id.clone(), entity_type, properties }
}


// ---------------------------------------------------------------------------
// The diagram view.
// ---------------------------------------------------------------------------

/// The label text of one node: its `PropertyValue` reading, else its name,
/// else its first type shortened, else its shortened identity.
pub open spec fn spec_primary_label(n: NodeV) -> Seq<char> {
    match spec_property_text(n.props, name_keys()) {
        Some(name) => name,
        None => if n.types.len() > 0 {
            spec_shorten(n.types[0])
        } else {
            spec_shorten(n.id)
        },
    }
}

/// The bracketed label of one node: a quoted escaped text, or a hyperlink
/// when the identity is an absolute web IRI.
pub open spec fn spec_node_label(n: NodeV) -> Seq<char> {
    match spec_pv_summary(n) {
        Some(s) => seq!['"'] + crate::iri::spec_escape_mermaid(s) + seq!['"'],
        None => {
            let primary = spec_primary_label(n);
            if crate::text::spec_starts_with(n.id, "http://"@) || crate::text::spec_starts_with(
                n.id,
                "https://"@,
            ) {
                "<a href='"@ + crate::iri::spec_escape_attr(n.id) + "'>"@
                    + crate::iri::spec_escape_text(primary) + "</a>"@
            } else {
                seq!['"'] + crate::iri::spec_escape_mermaid(primary) + seq!['"']
            }
        },
    }
}

/// The node lines of the first `i` nodes.
pub open spec fn spec_mermaid_nodes(nodes: Seq<NodeV>, i: int) -> Seq<char>
    decreases i,
{
    if i <= 0 || i > nodes.len() {
        Seq::<char>::empty()
    } else {
        spec_mermaid_nodes(nodes, i - 1) + "\n  N"@ + crate::text::spec_digits((i - 1) as nat)
            + "["@ + spec_node_label(nodes[i - 1]) + "]"@
    }
}

/// The edge lines of the first `i` edges: one per edge whose endpoints are
/// both nodes of the graph.
pub open spec fn spec_mermaid_edges(g: crate::graph::GraphV, i: int) -> Seq<char>
    decreases i,
{
    if i <= 0 || i > g.edges.len() {
        Seq::<char>::empty()
    } else {
        let prev = spec_mermaid_edges(g, i - 1);
        let e = g.edges[i - 1];
        let a = crate::graph::node_index(g.nodes, e.from);
        let b = crate::graph::node_index(g.nodes, e.to);
        if a >= 0 && b >= 0 {
            prev + "\n  N"@ + crate::text::spec_digits(a as nat) + " -->|"@
                + crate::iri::spec_escape_mermaid(spec_shorten(e.predicate)) + "| N"@
                + crate::text::spec_digits(b as nat)
        } else {
            prev
        }
    }
}

/// The whole diagram text.
pub open spec fn spec_mermaid(g: crate::graph::GraphV) -> Seq<char> {
    if g.nodes.len() == 0 {
        "graph TD\n  Empty[\"No data\"]"@
    } else {
        "graph TD"@ + spec_mermaid_nodes(g.nodes, g.nodes.len() as int) + spec_mermaid_edges(
            g,
            g.edges.len() as int,
        )
    }
}

/// Render the graph as a diagram: one identified, labelled line per node and
/// one line per edge under its shortened predicate.
#[verifier::loop_isolation(false)]
#[verifier::rlimit(80)]
#[verifier::spinoff_prover]
pub fn graph_to_mermaid(graph: &KnowledgeGraph) -> (r: String)
    ensures
        r@ == spec_mermaid(gview(*graph)),
{
    let ghost gv = gview(*graph);
    if graph.nodes.len() == 0 {
        proof {
            assert(gv.nodes.len() == 0);
        }
        return crate::text::from_chars(&crate::text::to_chars("graph TD\n  Empty[\"No data\"]"));
    }
    let mut out = crate::text::to_chars("graph TD");
    let mut i: usize = 0;
    proof {
        assert(gv.nodes.len() == graph.nodes@.len());
        assert(out@ =~= "graph TD"@ + spec_mermaid_nodes(gv.nodes, 0));
    }
    while i < graph.nodes.len()
        invariant
            i <= graph.nodes@.len(),
            gv == gview(*graph),
            gv.nodes.len() == graph.nodes@.len(),
            out@ == "graph TD"@ + spec_mermaid_nodes(gv.nodes, i as int),
        decreases graph.nodes@.len() - i,
    {
        proof {
            assert(gv.nodes[i as int] == nview(graph.nodes@[i as int]));
            assert(seq!["https://schema.org/name", "http://schema.org/name", "name"].map_values(
                |k: &str| k@,
            ) =~= name_keys());
        }
        crate::text::push_str_chars(&mut out, "\n  N");
        let d = crate::text::digits_of(i as u64);
        crate::text::push_all(&mut out, d.as_slice());
        crate::text::push_str_chars(&mut out, "[");
        let node = &graph.nodes[i];
        let pv = property_value_summary(node);
        match pv {
            Some(s) => {
                crate::text::push_str_chars(&mut out, "\"");
                let esc = crate::iri::escape_mermaid_label(s.as_str());
                crate::text::push_str_chars(&mut out, esc.as_str());
                crate::text::push_str_chars(&mut out, "\"");
                proof {
                    reveal_strlit("\"");
                    assert("\""@ =~= seq!['"']);
                }
            },
            None => {
                let primary = match property_text(
                    node,
                    &["https://schema.org/name", "http://schema.org/name", "name"],
                ) {
                    Some(name) => name,
                    None => {
                        if node.types.len() > 0 {
                            proof {
                                assert(nview(*node).types[0] == node.types@[0]@);
                            }
                            crate::iri::shorten_iri(node.types[0].as_str())
                        } else {
                            crate::iri::shorten_iri(node.id.as_str())
                        }
                    },
                };
                let idc = crate::text::to_chars(node.id.as_str());
                if crate::text::starts_with_chars(
                    idc.as_slice(),
                    crate::text::to_chars("http://").as_slice(),
                ) || crate::text::starts_with_chars(
                    idc.as_slice(),
                    crate::text::to_chars("https://").as_slice(),
                ) {
                    crate::text::push_str_chars(&mut out, "<a href='");
                    let href = crate::iri::escape_html_attr(node.id.as_str());
                    crate::text::push_str_chars(&mut out, href.as_str());
                    crate::text::push_str_chars(&mut out, "'>");
                    let text = crate::iri::escape_html_text(primary.as_str());
                    crate::text::push_str_chars(&mut out, text.as_str());
                    crate::text::push_str_chars(&mut out, "</a>");
                } else {
                    crate::text::push_str_chars(&mut out, "\"");
                    let esc = crate::iri::escape_mermaid_label(primary.as_str());
                    crate::text::push_str_chars(&mut out, esc.as_str());
                    crate::text::push_str_chars(&mut out, "\"");
                    proof {
                        reveal_strlit("\"");
                        assert("\""@ =~= seq!['"']);
                    }
                }
            },
        }
        crate::text::push_str_chars(&mut out, "]");
        proof {
            assert(out@ =~= "graph TD"@ + spec_mermaid_nodes(gv.nodes, i + 1));
        }
        i = i + 1;
    }
    let ghost mid = out@;
    let mut i: usize = 0;
    proof {
        assert(gv.edges.len() == graph.edges@.len());
        assert(out@ =~= mid + spec_mermaid_edges(gv, 0));
    }
    while i < graph.edges.len()
        invariant
            i <= graph.edges@.len(),
            gv == gview(*graph),
            gv.edges.len() == graph.edges@.len(),
            out@ == mid + spec_mermaid_edges(gv, i as int),
        decreases graph.edges@.len() - i,
    {
        proof {
            assert(gv.edges[i as int] == eview(graph.edges@[i as int]));
        }
        let a = find_node_position(graph, graph.edges[i].from.as_str());
        let b = find_node_position(graph, graph.edges[i].to.as_str());
        match (a, b) {
            (Option::Some(a), Option::Some(b)) => {
                crate::text::push_str_chars(&mut out, "\n  N");
                let da = crate::text::digits_of(a as u64);
                crate::text::push_all(&mut out, da.as_slice());
                crate::text::push_str_chars(&mut out, " -->|");
                let short = crate::iri::shorten_iri(graph.edges[i].predicate.as_str());
                let esc = crate::iri::escape_mermaid_label(short.as_str());
                crate::text::push_str_chars(&mut out, esc.as_str());
                crate::text::push_str_chars(&mut out, "| N");
                let db = crate::text::digits_of(b as u64);
                crate::text::push_all(&mut out, db.as_slice());
            },
            _ => {},
        }
        proof {
            assert(out@ =~= mid + spec_mermaid_edges(gv, i + 1));
        }
        i = i + 1;
    }
    crate::text::from_chars(&out)
}

/// The position of the node with this identity.
fn find_node_position(graph: &KnowledgeGraph, id: &str) -> (r: Option<usize>)
    ensures
        match r {
            Some(i) => i as int == crate::graph::node_index(gview(*graph).nodes, id@),
            None => crate::graph::node_index(gview(*graph).nodes, id@) == -1,
        },
{
    let ghost nv = gview(*graph).nodes;
    proof {
        assert(nv.skip(0) =~= nv);
    }
    let mut i: usize = 0;
    while i < graph.nodes.len()
        invariant
            i <= graph.nodes@.len(),
            nv == gview(*graph).nodes,
            nv.len() == graph.nodes@.len(),
            crate::graph::node_index(nv, id@) == if crate::graph::node_index(
                nv.skip(i as int),
                id@,
            ) >= 0 {
                i + crate::graph::node_index(nv.skip(i as int), id@)
            } else {
                -1
            },
        decreases graph.nodes@.len() - i,
    {
        proof {
            crate::graph::node_index_props(nv.skip(i as int), id@);
            assert(nv.skip(i as int).first() == nv[i as int]);
        }
        if crate::text::chars_eq(
            crate::text::to_chars(graph.nodes[i].id.as_str()).as_slice(),
            crate::text::to_chars(id).as_slice(),
        ) {
            return Some(i);
        }
        proof {
            assert(nv.skip(i as int).drop_first() =~= nv.skip(i + 1));
        }
        i = i + 1;
    }
    proof {
        assert(nv.skip(nv.len() as int) =~= Seq::<NodeV>::empty());
    }
    None
}

} // verus!
