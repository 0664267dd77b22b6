use htmlens::extract::{
    extract_breadcrumb, render_breadcrumb_trail, Adjacency, BreadcrumbItem, BreadcrumbSummary,
};
use htmlens::graph::{GraphEdge, GraphNode, KnowledgeGraph};
use htmlens::json::JsonValue;
use htmlens::manifests::{
    validate_mcp_manifest, validate_openapi, validate_plugin_manifest, AiPluginManifest,
    ApiConfig, AuthConfig, McpCapabilities, McpManifest, McpTransport, OpDoc, OpenApiDoc,
    PathDoc,
};
use htmlens::readiness::{AiReadinessIssue, AiReadinessReport, IssueSeverity};

fn text(s: &str) -> JsonValue {
    JsonValue::Text(s.chars().collect())
}

fn list_item(id: &str, position: &str, name: &str, url: &str) -> GraphNode {
    GraphNode {
        id: id.to_string(),
        types: vec!["https://schema.org/ListItem".to_string()],
        properties: vec![
            ("https://schema.org/position".to_string(), text(position)),
            ("https://schema.org/name".to_string(), text(name)),
            ("https://schema.org/item".to_string(), text(url)),
        ],
    }
}

#[test]
fn breadcrumb_trail_orders_by_position() {
    let root = GraphNode {
        id: "https://example.com/bc".to_string(),
        types: vec!["https://schema.org/BreadcrumbList".to_string()],
        properties: vec![],
    };
    let second = list_item("https://example.com/i2", "2", "Bikes", "https://example.com/bikes");
    let first = list_item("https://example.com/i1", "1", "Home", "https://example.com/");
    let graph = KnowledgeGraph {
        nodes: vec![root, second, first],
        edges: vec![
            GraphEdge {
                from: "https://example.com/bc".to_string(),
                to: "https://example.com/i2".to_string(),
                predicate: "https://schema.org/itemListElement".to_string(),
            },
            GraphEdge {
                from: "https://example.com/bc".to_string(),
                to: "https://example.com/i1".to_string(),
                predicate: "https://schema.org/itemListElement".to_string(),
            },
        ],
    };
    let adjacency = Adjacency::index(&graph);
    let bc = extract_breadcrumb(&graph.nodes[0], &adjacency, &graph);
    assert_eq!(bc.items.len(), 2);
    // positions [2, 1] render in order 1, 2
    let trail = render_breadcrumb_trail(&bc);
    assert_eq!(
        trail,
        "Home (https://example.com/) \u{2192} Bikes (https://example.com/bikes)"
    );
}

#[test]
fn breadcrumb_keeps_encounter_order_for_equal_positions() {
    let summary = BreadcrumbSummary {
        items: vec![
            BreadcrumbItem {
                position: 1,
                name: "A".to_string(),
                url: "u1".to_string(),
            },
            BreadcrumbItem {
                position: 1,
                name: "B".to_string(),
                url: "u2".to_string(),
            },
        ],
    };
    assert_eq!(render_breadcrumb_trail(&summary), "A (u1) \u{2192} B (u2)");
}

#[test]
fn score_deducts_by_severity() {
    let mut report = AiReadinessReport::new("https://example.com".to_string());
    report.issues.push(AiReadinessIssue {
        severity: IssueSeverity::Critical,
        category: "c".to_string(),
        message: "m".to_string(),
        reference: None,
    });
    report.issues.push(AiReadinessIssue {
        severity: IssueSeverity::Low,
        category: "c".to_string(),
        message: "m".to_string(),
        reference: None,
    });
    report.calculate_score();
    assert_eq!(report.score, 78);
}

fn plugin(name_for_model: &str, api_url: &str) -> AiPluginManifest {
    AiPluginManifest {
        schema_version: "v1".to_string(),
        name_for_human: "TODO Plugin".to_string(),
        name_for_model: name_for_model.to_string(),
        description_for_human: "Plugin for managing a TODO list.".to_string(),
        description_for_model:
            "Plugin for managing a TODO list. You can add, remove and view your TODOs."
                .to_string(),
        auth: AuthConfig {
            auth_type: "none".to_string(),
        },
        api: ApiConfig {
            api_type: "openapi".to_string(),
            url: api_url.to_string(),
            is_user_authenticated: false,
        },
        logo_url: "https://example.com/logo.png".to_string(),
        contact_email: "support@example.com".to_string(),
        legal_info_url: "https://example.com/legal".to_string(),
    }
}

#[test]
fn test_valid_manifest() {
    let validation = validate_plugin_manifest(plugin("todo", "https://example.com/openapi.yaml"));
    assert!(validation.valid, "issues: {:?}", validation
        .issues
        .iter()
        .map(|i| i.field.clone())
        .collect::<Vec<_>>());
    assert!(validation.manifest.is_some());
}

#[test]
fn test_invalid_name_with_spaces() {
    let validation =
        validate_plugin_manifest(plugin("todo plugin", "https://example.com/openapi.yaml"));
    assert!(!validation.valid);
    assert!(validation.issues.iter().any(|i| i.field == "name_for_model"));
}

#[test]
fn test_invalid_urls() {
    let validation = validate_plugin_manifest(plugin("todo", "not-a-valid-url"));
    assert!(!validation.valid);
    assert!(validation.issues.iter().any(|i| i.field == "api.url"));
}

#[test]
fn mcp_missing_fields_are_issues() {
    let manifest = McpManifest {
        schema_version: "".to_string(),
        protocol_version: "2025-06-18".to_string(),
        name: "".to_string(),
        description: "Invalid".to_string(),
        version: "1.0.0".to_string(),
        supported_protocol_versions: None,
        capabilities: McpCapabilities {
            tools: None,
            resources: None,
            prompts: None,
            events: None,
        },
        transport: McpTransport {
            transport_type: "invalid".to_string(),
            endpoint: "not-a-url".to_string(),
            authorization: "none".to_string(),
        },
        tools: vec![],
        resources: vec![],
        prompts: vec![],
        health: None,
    };
    let validation = validate_mcp_manifest(&manifest);
    assert!(!validation.valid);
    assert!(!validation.issues.is_empty());
}

#[test]
fn openapi_counts_paths_and_operations() {
    let doc = OpenApiDoc {
        openapi: "3.0.1".to_string(),
        title: "Example API".to_string(),
        version: "1.0.0".to_string(),
        servers: vec!["https://api.example.com".to_string()],
        paths: vec![
            PathDoc {
                path: "/items".to_string(),
                operations: vec![
                    OpDoc {
                        method: "GET".to_string(),
                        summary: Some("List items".to_string()),
                        has_success_response: true,
                    },
                    OpDoc {
                        method: "POST".to_string(),
                        summary: Some("Create item".to_string()),
                        has_success_response: false,
                    },
                ],
            },
            PathDoc {
                path: "/items/one".to_string(),
                operations: vec![OpDoc {
                    method: "GET".to_string(),
                    summary: None,
                    has_success_response: true,
                }],
            },
        ],
        schema_count: 1,
        has_security: false,
    };
    let validation = validate_openapi(&doc);
    assert!(validation.valid);
    assert_eq!(validation.stats.total_paths, 2);
    assert_eq!(validation.stats.total_operations, 3);
    assert_eq!(validation.endpoints.len(), 3);
}

#[test]
fn openapi_without_servers_is_invalid() {
    let doc = OpenApiDoc {
        openapi: "3.0.1".to_string(),
        title: "Example API".to_string(),
        version: "1.0.0".to_string(),
        servers: vec![],
        paths: vec![],
        schema_count: 0,
        has_security: false,
    };
    let validation = validate_openapi(&doc);
    assert!(!validation.valid);
    assert!(validation.issues.iter().any(|i| i.contains("No servers")));
}

#[test]
fn organization_fields_come_from_node_and_address() {
    let org_node = GraphNode {
        id: "https://example.com/org".to_string(),
        types: vec!["https://schema.org/Organization".to_string()],
        properties: vec![
            ("https://schema.org/name".to_string(), text("Acme")),
            ("https://schema.org/email".to_string(), text("hi@acme.test")),
        ],
    };
    let address = GraphNode {
        id: "https://example.com/addr".to_string(),
        types: vec!["https://schema.org/PostalAddress".to_string()],
        properties: vec![
            ("https://schema.org/streetAddress".to_string(), text("1 Way")),
            ("https://schema.org/addressLocality".to_string(), text("Town")),
        ],
    };
    let graph = KnowledgeGraph {
        nodes: vec![org_node, address],
        edges: vec![GraphEdge {
            from: "https://example.com/org".to_string(),
            to: "https://example.com/addr".to_string(),
            predicate: "https://schema.org/address".to_string(),
        }],
    };
    let adjacency = htmlens::extract::Adjacency::index(&graph);
    let org = htmlens::extract::extract_organization(&graph.nodes[0], &adjacency, &graph);
    assert_eq!(org.name, Some("Acme".to_string()));
    assert_eq!(org.email, Some("hi@acme.test".to_string()));
    assert_eq!(org.street, Some("1 Way".to_string()));
    assert_eq!(org.locality, Some("Town".to_string()));
    let mut out = String::new();
    htmlens::render::render_organization(&mut out, &org);
    assert!(out.contains("\u{2022} Name             : Acme\n"));
    assert!(out.contains("\u{2022} Street           : 1 Way\n"));
}

#[test]
fn availability_counts_join_sorted_entries() {
    let counts = vec![
        ("InStock".to_string(), 2u32),
        ("OutOfStock".to_string(), 1u32),
    ];
    let rendered = htmlens::render::format_availability_counts(&counts).unwrap();
    assert_eq!(rendered, "2 InStock / 1 OutOfStock");
    assert_eq!(htmlens::render::availability_label("InStock"), "\u{2705} InStock");
}

#[test]
fn product_group_pipeline_aggregates_variants() {
    fn product_node(id: &str, sku: &str, size: &str) -> GraphNode {
        GraphNode {
            id: id.to_string(),
            types: vec!["https://schema.org/Product".to_string()],
            properties: vec![
                ("https://schema.org/sku".to_string(), text(sku)),
                ("https://schema.org/size".to_string(), text(size)),
            ],
        }
    }
    fn offer_node(id: &str, price: &str, avail: &str) -> GraphNode {
        GraphNode {
            id: id.to_string(),
            types: vec!["https://schema.org/Offer".to_string()],
            properties: vec![
                ("https://schema.org/price".to_string(), text(price)),
                ("https://schema.org/priceCurrency".to_string(), text("USD")),
                (
                    "https://schema.org/availability".to_string(),
                    text(avail),
                ),
            ],
        }
    }
    let group = GraphNode {
        id: "https://example.com/group".to_string(),
        types: vec!["https://schema.org/ProductGroup".to_string()],
        properties: vec![
            ("https://schema.org/name".to_string(), text("Bike")),
            (
                "https://schema.org/variesBy".to_string(),
                text("Size"),
            ),
        ],
    };
    let edge = |from: &str, to: &str, pred: &str| GraphEdge {
        from: from.to_string(),
        to: to.to_string(),
        predicate: format!("https://schema.org/{pred}"),
    };
    let graph = KnowledgeGraph {
        nodes: vec![
            group,
            product_node("https://example.com/p2", "B-2", "L"),
            product_node("https://example.com/p1", "A-1", "M"),
            offer_node("https://example.com/o1", "29.99", "https://schema.org/InStock"),
            offer_node("https://example.com/o2", "35.50", "https://schema.org/InStock"),
        ],
        edges: vec![
            edge("https://example.com/group", "https://example.com/p2", "hasVariant"),
            edge("https://example.com/group", "https://example.com/p1", "hasVariant"),
            edge("https://example.com/p1", "https://example.com/o1", "offers"),
            edge("https://example.com/p2", "https://example.com/o2", "offers"),
        ],
    };
    let adjacency = htmlens::extract::Adjacency::index(&graph);
    let groups = htmlens::extract::extract_product_groups(&graph, &adjacency);
    assert_eq!(groups.len(), 1);
    let g = &groups[0];
    assert_eq!(g.name, Some("Bike".to_string()));
    assert_eq!(g.total_variants, 2);
    // variants come out sorted by SKU
    assert_eq!(g.variants[0].sku, Some("A-1".to_string()));
    assert_eq!(g.variants[1].sku, Some("B-2".to_string()));
    let stats = g.price_stats.as_ref().unwrap();
    assert_eq!(stats.min_micros, 29_990_000);
    assert_eq!(stats.max_micros, 35_500_000);
    assert_eq!(stats.currency, Some("USD".to_string()));
    // both variants count toward the InStock bucket
    assert_eq!(g.availability_counts.len(), 1);
    assert_eq!(g.availability_counts[0].0, "InStock");
    assert_eq!(g.availability_counts[0].1, 2);
    // the rendered range
    let range = htmlens::extract::format_price_range(
        stats.min_micros,
        stats.max_micros,
        &stats.currency,
    );
    assert_eq!(range, "$29.99 \u{2013} $35.50");
    // the rendered section holds the variant table
    let mut outp = String::new();
    htmlens::render::render_product_groups(&mut outp, &groups);
    assert!(outp.contains("ProductGroup: Bike"));
    assert!(outp.contains("| SKU"));
    assert!(outp.contains("| A-1"));
    assert!(outp.contains("\u{2705} InStock"));
}

#[test]
fn mermaid_diagram_lists_nodes_and_edges() {
    let a = GraphNode {
        id: "https://example.com/a".to_string(),
        types: vec!["https://schema.org/Thing".to_string()],
        properties: vec![("https://schema.org/name".to_string(), text("Alpha"))],
    };
    let b = GraphNode {
        id: "_:b0".to_string(),
        types: vec![],
        properties: vec![],
    };
    let graph = KnowledgeGraph {
        nodes: vec![a, b],
        edges: vec![GraphEdge {
            from: "https://example.com/a".to_string(),
            to: "_:b0".to_string(),
            predicate: "https://schema.org/related".to_string(),
        }],
    };
    let m = htmlens::extract::graph_to_mermaid(&graph);
    assert!(m.starts_with("graph TD"));
    assert!(m.contains("N0[<a href='https://example.com/a'>Alpha</a>]"));
    assert!(m.contains("N1[\"_:b0\"]"));
    assert!(m.contains("N0 -->|related| N1"));
    let empty = KnowledgeGraph { nodes: vec![], edges: vec![] };
    assert_eq!(
        htmlens::extract::graph_to_mermaid(&empty),
        "graph TD\n  Empty[\"No data\"]"
    );
}
