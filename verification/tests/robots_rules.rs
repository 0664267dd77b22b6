use htmlens::robots::{is_path_allowed, parse_robots_txt, AccessLevel};

#[test]
fn test_parse_simple_robots() {
    let content = r#"
User-agent: *
Disallow: /admin/
Disallow: /private/

Sitemap: https://example.com/sitemap.xml
"#;

    let analysis = parse_robots_txt(content);
    assert!(analysis.found);
    assert_eq!(analysis.sitemaps.len(), 1);
    assert!(analysis.agent_rules.contains_key("*"));

    let wildcard = analysis.agent_rules.get("*").unwrap();
    assert_eq!(wildcard.disallow.len(), 2);
    assert!(!wildcard.blocks_all);
}

#[test]
fn test_parse_ai_crawler_block() {
    let content = r#"
User-agent: *
Disallow:

User-agent: GPTBot
Disallow: /
"#;

    let analysis = parse_robots_txt(content);

    let gptbot_status = analysis
        .ai_crawler_status
        .iter()
        .find(|s| s.name == "GPTBot")
        .unwrap();

    assert_eq!(gptbot_status.access, AccessLevel::Blocked);
}

#[test]
fn test_is_path_allowed() {
    let content = r#"
User-agent: *
Disallow: /admin/
Allow: /admin/public/
"#;

    let analysis = parse_robots_txt(content);

    assert!(is_path_allowed("/", "*", &analysis));
    assert!(!is_path_allowed("/admin/secret", "*", &analysis));
    assert!(is_path_allowed("/admin/public/doc.html", "*", &analysis));
}

#[test]
fn test_multiple_sitemaps() {
    let content = r#"
Sitemap: https://example.com/sitemap.xml
Sitemap: https://example.com/sitemap-images.xml
Sitemap: https://example.com/sitemap-videos.xml
"#;

    let analysis = parse_robots_txt(content);
    assert_eq!(analysis.sitemaps.len(), 3);
}

#[test]
fn wildcard_block_raises_issue() {
    let content = "User-agent: *\nDisallow: /\n";
    let analysis = parse_robots_txt(content);
    assert!(analysis
        .issues
        .iter()
        .any(|i| i.contains("All bots blocked")));
    assert!(analysis.issues.iter().any(|i| i.contains("No sitemap")));
}

#[test]
fn crawl_delay_is_read() {
    let content = "User-agent: SlowBot\nCrawl-delay: 7\nDisallow: /tmp\n";
    let analysis = parse_robots_txt(content);
    let rules = analysis.agent_rules.get("SlowBot").unwrap();
    assert_eq!(rules.crawl_delay, Some(7));
    assert_eq!(rules.disallow.len(), 1);
    let status = analysis
        .ai_crawler_status
        .iter()
        .find(|s| s.name == "PerplexityBot")
        .unwrap();
    assert_eq!(status.access, AccessLevel::Default);
}
