use htmlens::extract::{format_price_range, is_varying, read_offer_fields};
use htmlens::graph::{GraphEdge, GraphNode};
use htmlens::iri::{normalize_tokens, predicate_matches_loose, shorten_iri};
use htmlens::json::JsonValue;
use htmlens::readiness::{categorize_url, decode_xml_entities, is_yaml_format, validate_text};

#[test]
fn test_shorten_iri() {
    assert_eq!(shorten_iri("https://schema.org/name"), "name");
    assert_eq!(shorten_iri("https://schema.org/Product"), "Product");
    assert_eq!(shorten_iri("http://example.com#property"), "property");
    assert_eq!(shorten_iri("simple"), "simple");
}

#[test]
fn test_normalize_tokens() {
    assert_eq!(normalize_tokens("FrameSize"), vec!["frame", "size"]);
    assert_eq!(normalize_tokens("colorway"), vec!["colorway"]);
    assert_eq!(normalize_tokens("ProductName"), vec!["product", "name"]);
    assert_eq!(normalize_tokens("simple"), vec!["simple"]);
    assert_eq!(
        normalize_tokens("HTMLParser"),
        vec!["h", "t", "m", "l", "parser"]
    );
}

#[test]
fn test_predicate_matches() {
    assert!(predicate_matches_loose(
        "https://schema.org/hasVariant",
        "hasVariant"
    ));
    assert!(predicate_matches_loose(
        "https://schema.org/hasVariant",
        "hasvariant"
    ));
    assert!(predicate_matches_loose("http://example.com#offers", "offers"));
    assert!(!predicate_matches_loose("https://schema.org/name", "hasVariant"));
}

#[test]
fn test_yaml_format_detection() {
    assert!(is_yaml_format("https://example.com/api.yaml", ""));
    assert!(is_yaml_format("https://example.com/api.yml", ""));
    assert!(!is_yaml_format("https://example.com/api.json", ""));
    assert!(is_yaml_format(
        "https://example.com/api",
        "openapi: 3.0.0\ninfo:\n  title: API"
    ));
    assert!(is_yaml_format("https://example.com/api", "---\nopenapi: 3.0.0"));
    assert!(!is_yaml_format(
        "https://example.com/api",
        r#"{"openapi": "3.0.0"}"#
    ));
    assert!(!is_yaml_format("https://example.com/api", ""));
}

#[test]
fn test_categorize_urls() {
    assert_eq!(
        categorize_url("https://example.com/products/item123"),
        "product"
    );
    assert_eq!(categorize_url("https://example.com/blog/my-post"), "blog");
    assert_eq!(
        categorize_url("https://example.com/docs/guide"),
        "documentation"
    );
    assert_eq!(categorize_url("https://example.com/about"), "info");
}

#[test]
fn test_xml_entity_decoding() {
    let encoded = "https://example.com/page?param=1&amp;other=2";
    let decoded = decode_xml_entities(encoded);
    assert_eq!(decoded, "https://example.com/page?param=1&other=2");
}

#[test]
fn test_validate_text() {
    assert!(validate_text("Contact: security@example.com"));
    assert!(!validate_text(""));
    assert!(!validate_text("   "));
}

#[test]
fn test_edge_creation() {
    let edge = GraphEdge {
        from: "node1".to_string(),
        to: "node2".to_string(),
        predicate: "hasVariant".to_string(),
    };

    assert_eq!(edge.from, "node1");
    assert_eq!(edge.to, "node2");
    assert_eq!(edge.predicate, "hasVariant");
}

#[test]
fn test_types_creation() {
    let node = GraphNode {
        id: "test-node".to_string(),
        types: vec!["Product".to_string()],
        properties: Vec::new(),
    };

    assert_eq!(node.id, "test-node");
    assert_eq!(node.types, vec!["Product"]);
    assert!(node.properties.is_empty());
}

#[test]
fn classifies_varying_against_varies_by() {
    let varies = vec!["Size".to_string()];
    assert!(is_varying(&varies, "FrameSize"));
    assert!(!is_varying(&varies, "Colorway"));
    let multi = vec!["FrameSize".to_string()];
    assert!(is_varying(&multi, "FrameSize"));
    assert!(!is_varying(&multi, "Frame"));
}

#[test]
fn renders_dollar_price_range() {
    let min = 29_990_000i64; // 29.99 in millionths
    let max = 35_500_000i64;
    let r = format_price_range(min, max, &Some("USD".to_string()));
    assert_eq!(r, "$29.99 \u{2013} $35.50");
}

#[test]
fn price_range_collapses_when_equal() {
    let r = format_price_range(10_000_000, 10_000_000, &Some("EUR".to_string()));
    assert_eq!(r, "\u{20ac}10.00");
}

#[test]
fn shortens_availability_iri() {
    let offer = GraphNode {
        id: "o1".to_string(),
        types: vec!["https://schema.org/Offer".to_string()],
        properties: vec![
            (
                "https://schema.org/availability".to_string(),
                JsonValue::Text("https://schema.org/InStock".chars().collect()),
            ),
            (
                "https://schema.org/price".to_string(),
                JsonValue::Text("29.99".chars().collect()),
            ),
            (
                "https://schema.org/priceCurrency".to_string(),
                JsonValue::Text("USD".chars().collect()),
            ),
        ],
    };
    let info = read_offer_fields(&offer);
    assert_eq!(info.availability, Some("InStock".to_string()));
    assert_eq!(info.price_micros, Some(29_990_000));
    assert_eq!(info.price_display, Some("$29.99".to_string()));
    assert_eq!(info.price_currency, Some("USD".to_string()));
}

#[test]
fn keeps_non_numeric_price_verbatim() {
    let offer = GraphNode {
        id: "o2".to_string(),
        types: vec!["https://schema.org/Offer".to_string()],
        properties: vec![(
            "https://schema.org/price".to_string(),
            JsonValue::Text("call us".chars().collect()),
        )],
    };
    let info = read_offer_fields(&offer);
    assert_eq!(info.price_micros, None);
    assert_eq!(info.price_display, Some("call us".to_string()));
}

#[test]
fn test_has_schema_type() {
    let node = GraphNode {
        id: "https://example.com/p".to_string(),
        types: vec![
            "https://schema.org/Product".to_string(),
            "https://schema.org/Thing".to_string(),
        ],
        properties: vec![],
    };
    assert!(htmlens::iri::has_schema_type(&node, "Product"));
    assert!(htmlens::iri::has_schema_type(&node, "product")); // case insensitive
    assert!(htmlens::iri::has_schema_type(&node, "Thing"));
    assert!(!htmlens::iri::has_schema_type(&node, "Organization"));
}

#[test]
fn test_knowledge_graph_creation() {
    let graph = htmlens::graph::KnowledgeGraph {
        nodes: vec![],
        edges: vec![],
    };
    assert!(graph.nodes.is_empty());
    assert!(graph.edges.is_empty());
}

#[test]
fn test_build_adjacency_concept() {
    let graph = htmlens::graph::KnowledgeGraph {
        nodes: vec![],
        edges: vec![
            GraphEdge {
                from: "product1".to_string(),
                to: "offer1".to_string(),
                predicate: "offers".to_string(),
            },
            GraphEdge {
                from: "product1".to_string(),
                to: "variant1".to_string(),
                predicate: "hasVariant".to_string(),
            },
        ],
    };
    let adjacency = htmlens::extract::Adjacency::index(&graph);
    assert_eq!(adjacency.outgoing("product1").len(), 2);
    assert_eq!(adjacency.outgoing("nonexistent").len(), 0);
}

#[test]
fn test_format_price() {
    assert_eq!(htmlens::extract::format_price(29_990_000, &Some("USD".to_string())), "$29.99");
    assert_eq!(
        htmlens::extract::format_price(35_500_000, &Some("EUR".to_string())),
        "\u{20ac}35.50"
    );
    assert_eq!(
        htmlens::extract::format_price(19_990_000, &Some("GBP".to_string())),
        "\u{a3}19.99"
    );
    assert_eq!(
        htmlens::extract::format_price(100_000_000, &Some("JPY".to_string())),
        "\u{a5}100"
    );
    assert_eq!(htmlens::extract::format_price(50_000_000, &None), "50");
}
