use htmlens::builder::{node_identifier, GraphBuilder};
use htmlens::document::{ExpandedLiteral, ExpandedNode, ExpandedObject, NodeId};
use htmlens::json::JsonValue;

fn leaf(id: &str) -> ExpandedNode {
    ExpandedNode {
        id: Some(NodeId::Iri(id.to_string())),
        types: vec![],
        graph: vec![],
        included: vec![],
        reverse: vec![],
        properties: vec![],
    }
}

fn chars(s: &str) -> Vec<char> {
    s.chars().collect()
}

#[test]
fn cycle_terminates_with_two_nodes_two_edges() {
    // A -p-> B -p-> A
    let mut inner_a = leaf("https://example.com/a");
    inner_a.id = Some(NodeId::Iri("https://example.com/a".to_string()));
    let mut b = leaf("https://example.com/b");
    b.properties = vec![(
        NodeId::Iri("https://schema.org/related".to_string()),
        vec![ExpandedObject::Node(inner_a)],
    )];
    let mut a = leaf("https://example.com/a");
    a.properties = vec![(
        NodeId::Iri("https://schema.org/related".to_string()),
        vec![ExpandedObject::Node(b)],
    )];

    let mut builder = GraphBuilder::new();
    builder.ingest_document(&vec![ExpandedObject::Node(a)]);
    let graph = builder.into_graph();

    assert_eq!(graph.nodes.len(), 2);
    assert_eq!(graph.edges.len(), 2);
    // one edge in each direction
    assert_eq!(graph.edges[0].from, "https://example.com/b");
    assert_eq!(graph.edges[0].to, "https://example.com/a");
    assert_eq!(graph.edges[1].from, "https://example.com/a");
    assert_eq!(graph.edges[1].to, "https://example.com/b");
}

#[test]
fn node_count_equals_distinct_identities() {
    // a diamond: A points at B and C, both point at D
    let d = leaf("https://example.com/d");
    let d_again = leaf("https://example.com/d");
    let mut b = leaf("https://example.com/b");
    b.properties = vec![(
        NodeId::Iri("https://schema.org/next".to_string()),
        vec![ExpandedObject::Node(d)],
    )];
    let mut c = leaf("https://example.com/c");
    c.properties = vec![(
        NodeId::Iri("https://schema.org/next".to_string()),
        vec![ExpandedObject::Node(d_again)],
    )];
    let mut a = leaf("https://example.com/a");
    a.properties = vec![(
        NodeId::Iri("https://schema.org/next".to_string()),
        vec![ExpandedObject::Node(b), ExpandedObject::Node(c)],
    )];

    let mut builder = GraphBuilder::new();
    builder.ingest_document(&vec![ExpandedObject::Node(a)]);
    let graph = builder.into_graph();

    // four distinct identities, four edges
    assert_eq!(graph.nodes.len(), 4);
    assert_eq!(graph.edges.len(), 4);
    // nodes come out sorted by identity
    assert_eq!(graph.nodes[0].id, "https://example.com/a");
    assert_eq!(graph.nodes[1].id, "https://example.com/b");
    assert_eq!(graph.nodes[2].id, "https://example.com/c");
    assert_eq!(graph.nodes[3].id, "https://example.com/d");
}

#[test]
fn property_written_twice_becomes_two_element_array() {
    let mut a = leaf("https://example.com/a");
    a.properties = vec![(
        NodeId::Iri("https://schema.org/color".to_string()),
        vec![
            ExpandedObject::Value(ExpandedLiteral::Text("red".to_string())),
            ExpandedObject::Value(ExpandedLiteral::Text("blue".to_string())),
        ],
    )];
    let mut builder = GraphBuilder::new();
    builder.ingest_document(&vec![ExpandedObject::Node(a)]);
    let graph = builder.into_graph();
    assert_eq!(graph.nodes.len(), 1);
    let props = &graph.nodes[0].properties;
    assert_eq!(props.len(), 1);
    assert_eq!(props[0].0, "https://schema.org/color");
    match &props[0].1 {
        JsonValue::Array(items) => {
            assert_eq!(items.len(), 2);
            match &items[0] {
                JsonValue::Text(t) => assert_eq!(t, &chars("red")),
                _ => panic!("first value should be text"),
            }
            match &items[1] {
                JsonValue::Text(t) => assert_eq!(t, &chars("blue")),
                _ => panic!("second value should be text"),
            }
        }
        _ => panic!("two values should promote to an array"),
    }
}

#[test]
fn types_are_sorted_and_deduplicated() {
    let mut a = leaf("https://example.com/a");
    a.types = vec![
        NodeId::Iri("https://schema.org/Zebra".to_string()),
        NodeId::Iri("https://schema.org/Apple".to_string()),
        NodeId::Iri("https://schema.org/Zebra".to_string()),
    ];
    let mut builder = GraphBuilder::new();
    builder.ingest_document(&vec![ExpandedObject::Node(a)]);
    let graph = builder.into_graph();
    assert_eq!(graph.nodes.len(), 1);
    assert_eq!(
        graph.nodes[0].types,
        vec!["https://schema.org/Apple", "https://schema.org/Zebra"]
    );
}

#[test]
fn unreadable_number_is_dropped() {
    let mut a = leaf("https://example.com/a");
    a.properties = vec![(
        NodeId::Iri("https://schema.org/count".to_string()),
        vec![
            ExpandedObject::Value(ExpandedLiteral::Number("not-a-number".to_string())),
            ExpandedObject::Value(ExpandedLiteral::Number("12".to_string())),
        ],
    )];
    let mut builder = GraphBuilder::new();
    builder.ingest_document(&vec![ExpandedObject::Node(a)]);
    let graph = builder.into_graph();
    let props = &graph.nodes[0].properties;
    assert_eq!(props.len(), 1);
    match &props[0].1 {
        JsonValue::Number(n) => assert_eq!(n, &chars("12")),
        _ => panic!("only the readable number should be kept"),
    }
}

#[test]
fn generated_blank_identifier_is_fresh_form() {
    let id = node_identifier(&None);
    assert!(id.starts_with("_:"));
    assert_eq!(id.chars().count(), 38);
    let named = node_identifier(&Some(NodeId::Blank("b0".to_string())));
    assert_eq!(named, "_:b0");
}

#[test]
fn reverse_properties_point_back() {
    let target = leaf("https://example.com/parent");
    let mut a = leaf("https://example.com/child");
    a.reverse = vec![(
        NodeId::Iri("https://schema.org/subjectOf".to_string()),
        vec![target],
    )];
    let mut builder = GraphBuilder::new();
    builder.ingest_document(&vec![ExpandedObject::Node(a)]);
    let graph = builder.into_graph();
    assert_eq!(graph.edges.len(), 1);
    assert_eq!(graph.edges[0].from, "https://example.com/parent");
    assert_eq!(graph.edges[0].to, "https://example.com/child");
    assert_eq!(graph.edges[0].predicate, "https://schema.org/subjectOf");
}

#[test]
fn language_tagged_text_becomes_value_object() {
    let mut a = leaf("https://example.com/a");
    a.properties = vec![(
        NodeId::Iri("https://schema.org/name".to_string()),
        vec![ExpandedObject::Value(ExpandedLiteral::LangText {
            value: "Rad".to_string(),
            language: Some("de".to_string()),
            direction: None,
        })],
    )];
    let mut builder = GraphBuilder::new();
    builder.ingest_document(&vec![ExpandedObject::Node(a)]);
    let graph = builder.into_graph();
    match &graph.nodes[0].properties[0].1 {
        JsonValue::Object(entries) => {
            assert_eq!(entries.len(), 2);
            assert_eq!(entries[0].0, chars("@value"));
            assert_eq!(entries[1].0, chars("@language"));
        }
        _ => panic!("language-tagged text should become an object"),
    }
}
