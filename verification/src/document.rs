//! The expanded linked-data document handed to the graph builder: a tree of
//! nodes, lists and literal values, every shorthand already resolved by the
//! external expansion step.

use vstd::prelude::*;

use crate::json::{is_json_number, is_json_number_exec, jview, jview_obj, jview_obj_index,
    jview_obj_len, JsonV, JsonValue};

verus! {

/// A resolved identifier: an IRI, a blank-node label, or the raw text of an
/// identifier the expansion could not resolve.
pub enum NodeId {
    Iri(String),
    Blank(String),
    Invalid(String),
}

/// One expanded literal.
pub enum ExpandedLiteral {
    Null,
    Bool(bool),
    /// A number in its textual form.
    Number(String),
    Text(String),
    LangText { value: String, language: Option<String>, direction: Option<String> },
    /// Arbitrary embedded JSON.
    Json(JsonValue),
}

/// A node of the expanded document.
pub struct ExpandedNode {
    pub id: Option<NodeId>,
    pub types: Vec<NodeId>,
    pub graph: Vec<ExpandedObject>,
    pub included: Vec<ExpandedNode>,
    pub reverse: Vec<(NodeId, Vec<ExpandedNode>)>,
    pub properties: Vec<(NodeId, Vec<ExpandedObject>)>,
}

/// An expanded indexed object: a node, an ordered list, or a literal.
pub enum ExpandedObject {
    Node(ExpandedNode),
    List(Vec<ExpandedObject>),
    Value(ExpandedLiteral),
}

/// The textual identity an identifier contributes: blank labels are prefixed
/// with `_:`, invalid identifiers keep their raw form.
pub open spec fn spec_id_string(id: NodeId) -> Seq<char> {
    match id {
        NodeId::Iri(s) => s@,
        NodeId::Blank(s) => "_:"@ + s@,
        NodeId::Invalid(s) => s@,
    }
}

pub fn id_to_string(id: &NodeId) -> (r: String)
    ensures
        r@ == spec_id_string(*id),
{
    match id {
        NodeId::Iri(s) => s.clone(),
        NodeId::Blank(s) => {
            let mut v = crate::text::to_chars("_:");
            crate::text::push_str_chars(&mut v, s.as_str());
            crate::text::from_chars(&v)
        },
        NodeId::Invalid(s) => s.clone(),
    }
}

// ---------------------------------------------------------------------------
// The value normalizer: one expanded literal to one canonical JSON value,
// or nothing when the literal is unrepresentable (a malformed number).
// ---------------------------------------------------------------------------

pub open spec fn spec_normalize(lit: ExpandedLiteral) -> Option<JsonV> {
    match lit {
        ExpandedLiteral::Null => Some(JsonV::Null),
        ExpandedLiteral::Bool(b) => Some(JsonV::Bool(b)),
        ExpandedLiteral::Number(s) => if is_json_number(s@) {
            Some(JsonV::Number(s@))
        } else {
            None
        },
        ExpandedLiteral::Text(s) => Some(JsonV::Text(s@)),
        ExpandedLiteral::LangText { value, language, direction } => Some(
            JsonV::Object(spec_lang_entries(value, language, direction)),
        ),
        ExpandedLiteral::Json(v) => Some(jview(v)),
    }
}

pub open spec fn spec_lang_entries(
    value: String,
    language: Option<String>,
    direction: Option<String>,
) -> Seq<(Seq<char>, JsonV)> {
    let base = seq![("@value"@, JsonV::Text(value@))];
    let with_lang = match language {
        Some(l) => base.push(("@language"@, JsonV::Text(l@))),
        None => base,
    };
    match direction {
        Some(d) => with_lang.push(("@direction"@, JsonV::Text(d@))),
        None => with_lang,
    }
}

/// Normalize one expanded literal (the graph builder drops `None`s).
pub fn value_object_to_json(lit: &ExpandedLiteral) -> (r: Option<JsonValue>)
    ensures
        match r {
            Some(v) => spec_normalize(*lit) == Some(jview(v)),
            None => spec_normalize(*lit) is None,
        },
{
    match lit {
        ExpandedLiteral::Null => Some(JsonValue::Null),
        ExpandedLiteral::Bool(b) => Some(JsonValue::Bool(*b)),
        ExpandedLiteral::Number(s) => {
            let cs = crate::text::to_chars(s.as_str());
            if is_json_number_exec(cs.as_slice()) {
                Some(JsonValue::Number(cs))
            } else {
                None
            }
        },
        ExpandedLiteral::Text(s) => Some(JsonValue::Text(crate::text::to_chars(s.as_str()))),
        ExpandedLiteral::LangText { value, language, direction } => {
            let mut entries: Vec<(Vec<char>, JsonValue)> = Vec::new();
            entries.push(
                (crate::text::to_chars("@value"), JsonValue::Text(
                    crate::text::to_chars(value.as_str()),
                )),
            );
            match language {
                Some(l) => {
                    entries.push(
                        (crate::text::to_chars("@language"), JsonValue::Text(
                            crate::text::to_chars(l.as_str()),
                        )),
                    );
                },
                None => {},
            }
            match direction {
                Some(d) => {
                    entries.push(
                        (crate::text::to_chars("@direction"), JsonValue::Text(
                            crate::text::to_chars(d.as_str()),
                        )),
                    );
                },
                None => {},
            }
            proof {
                jview_obj_len(entries@);
                assert forall|i: int| 0 <= i < entries@.len() implies jview_obj(entries@)[i] == (
                    entries@[i].0@,
                    jview(entries@[i].1),
                ) by {
                    jview_obj_index(entries@, i);
                }
                assert(jview_obj(entries@) =~= spec_lang_entries(*value, *language, *direction));
            }
            Some(JsonValue::Object(entries))
        },
        ExpandedLiteral::Json(v) => Some(clone_json(v)),
    }
}

/// A structural copy of a JSON value.
#[verifier::loop_isolation(false)]
pub fn clone_json(v: &JsonValue) -> (r: JsonValue)
    ensures
        jview(r) == jview(*v),
    decreases *v,
{
    match v {
        JsonValue::Null => JsonValue::Null,
        JsonValue::Bool(b) => JsonValue::Bool(*b),
        JsonValue::Number(n) => JsonValue::Number(crate::text::copy_chars(n.as_slice())),
        JsonValue::Text(s) => JsonValue::Text(crate::text::copy_chars(s.as_slice())),
        JsonValue::Array(a) => {
            let mut out: Vec<JsonValue> = Vec::new();
            proof {
                crate::json::jview_seq_len(a@);
                assert(crate::json::jview_seq(out@) =~= crate::json::jview_seq(a@).take(0));
            }
            let mut i: usize = 0;
            while i < a.len()
                invariant
                    i <= a@.len(),
                    crate::json::jview_seq(out@) == crate::json::jview_seq(a@).take(i as int),
                decreases a@.len() - i,
            {
                let ghost prev = out@;
                let c = clone_json(&a[i]);
                out.push(c);
                proof {
                    assert(out@.drop_last() =~= prev);
                    crate::json::jview_seq_index(a@, i as int);
                    assert(crate::json::jview_seq(a@).take(i + 1) =~= crate::json::jview_seq(
                        a@,
                    ).take(i as int).push(crate::json::jview_seq(a@)[i as int]));
                }
                i = i + 1;
            }
            proof {
                assert(crate::json::jview_seq(a@).take(a@.len() as int) =~= crate::json::jview_seq(
                    a@,
                ));
            }
            JsonValue::Array(out)
        },
        JsonValue::Object(o) => {
            let mut out: Vec<(Vec<char>, JsonValue)> = Vec::new();
            proof {
                jview_obj_len(o@);
                assert(jview_obj(out@) =~= jview_obj(o@).take(0));
            }
            let mut i: usize = 0;
            while i < o.len()
                invariant
                    i <= o@.len(),
                    jview_obj(out@) == jview_obj(o@).take(i as int),
                decreases o@.len() - i,
            {
                let ghost prev = out@;
                let k = crate::text::copy_chars(o[i].0.as_slice());
                let c = clone_json(&o[i].1);
                out.push((k, c));
                proof {
                    assert(out@.drop_last() =~= prev);
                    jview_obj_index(o@, i as int);
                    assert(jview_obj(o@).take(i + 1) =~= jview_obj(o@).take(i as int).push(
                        jview_obj(o@)[i as int],
                    ));
                }
                i = i + 1;
            }
            proof {
                assert(jview_obj(o@).take(o@.len() as int) =~= jview_obj(o@));
            }
            JsonValue::Object(out)
        },
    }
}

// ---------------------------------------------------------------------------
// Documents in which every node carries an identity. Only for those is the
// builder's outcome a function of the document: a node with no identity gets
// a freshly generated blank identifier.
// ---------------------------------------------------------------------------

pub open spec fn object_named(o: ExpandedObject) -> bool
    decreases o,
{
    match o {
        ExpandedObject::Node(n) => node_named(n),
        ExpandedObject::List(items) => objects_named(items@, items@.len() as int),
        ExpandedObject::Value(_) => true,
    }
}

pub open spec fn objects_named(items: Seq<ExpandedObject>, i: int) -> bool
    decreases items, i,
{
    if i <= 0 || i > items.len() {
        true
    } else {
        objects_named(items, i - 1) && object_named(items[i - 1])
    }
}

pub open spec fn node_named(n: ExpandedNode) -> bool
    decreases n,
{
    &&& n.id is Some
    &&& objects_named(n.graph@, n.graph@.len() as int)
    &&& nodes_named(n.included@, n.included@.len() as int)
    &&& reverse_named(n.reverse@, n.reverse@.len() as int)
    &&& props_named(n.properties@, n.properties@.len() as int)
}

pub open spec fn nodes_named(ns: Seq<ExpandedNode>, i: int) -> bool
    decreases ns, i,
{
    if i <= 0 || i > ns.len() {
        true
    } else {
        nodes_named(ns, i - 1) && node_named(ns[i - 1])
    }
}

pub open spec fn reverse_named(pairs: Seq<(NodeId, Vec<ExpandedNode>)>, i: int) -> bool
    decreases pairs, i,
{
    if i <= 0 || i > pairs.len() {
        true
    } else {
        reverse_named(pairs, i - 1) && nodes_named(
            pairs[i - 1].1@,
            pairs[i - 1].1@.len() as int,
        )
    }
}

pub open spec fn props_named(pairs: Seq<(NodeId, Vec<ExpandedObject>)>, i: int) -> bool
    decreases pairs, i,
{
    if i <= 0 || i > pairs.len() {
        true
    } else {
        props_named(pairs, i - 1) && objects_named(pairs[i - 1].1@, pairs[i - 1].1@.len() as int)
    }
}

} // verus!
