use sitegen::{render_blog, DocError, MdEvent};
use sitegen::date::{display_date, parse_iso_date};
use sitegen::frontmatter::parse_frontmatter;

const POST: &str = "---\ntitle: My P\u{f6}st\npublishDate: 2024-06-03\nexcerpt: An \u{e9}xcerpt\nslug: my-post\n\n---\n\n# Hello\n\nSome *body* text.\n";

#[test]
fn document_fields_come_from_frontmatter() {
    let blog = render_blog("posts/a.md".to_string(), POST.to_string()).unwrap();
    assert_eq!(blog.id, "posts/a.md");
    assert_eq!(blog.title, "My P\u{f6}st");
    assert_eq!(blog.excerpt, "An \u{e9}xcerpt");
    assert_eq!(blog.slug, "my-post");
    assert!(blog.external.is_none());
    assert_eq!(blog.publish_date.year, 2024);
    assert_eq!(blog.publish_date.month, 6);
    assert_eq!(blog.publish_date.day, 3);
    assert_eq!(blog.display_date, "June 3, 2024");
    assert!(blog.html.contains("<h1>Hello</h1>"));
    assert!(blog.html.contains("<em>body</em>"));
}

#[test]
fn missing_excerpt_names_the_key() {
    let text = "---\ntitle: T\npublishDate: 2024-06-03\n\n---\n\nbody\n";
    match render_blog("p.md".to_string(), text.to_string()) {
        Err(DocError::MissingFrontmatterField { path, key }) => {
            assert_eq!(path, "p.md");
            assert_eq!(key, "excerpt");
        }
        other => panic!("expected MissingFrontmatterField, got ok={}", other.is_ok()),
    }
}

#[test]
fn missing_title_names_the_key() {
    let text = "---\npublishDate: 2024-06-03\nexcerpt: E\n\n---\n\nbody\n";
    match render_blog("p.md".to_string(), text.to_string()) {
        Err(DocError::MissingFrontmatterField { key, .. }) => assert_eq!(key, "title"),
        other => panic!("expected MissingFrontmatterField, got ok={}", other.is_ok()),
    }
}

#[test]
fn malformed_date_fails_document() {
    let text = "---\ntitle: T\npublishDate: 2024-13-01\nexcerpt: E\n\n---\n\nbody\n";
    match render_blog("p.md".to_string(), text.to_string()) {
        Err(DocError::MalformedFrontmatter { path }) => assert_eq!(path, "p.md"),
        other => panic!("expected MalformedFrontmatter, got ok={}", other.is_ok()),
    }
}

#[test]
fn document_without_frontmatter_is_malformed() {
    match render_blog("p.md".to_string(), "# Just a body\n".to_string()) {
        Err(DocError::MalformedFrontmatter { path }) => assert_eq!(path, "p.md"),
        other => panic!("expected MalformedFrontmatter, got ok={}", other.is_ok()),
    }
}

#[test]
fn external_link_is_kept() {
    let text = "---\ntitle: T\npublishDate: 2024-06-03\nexcerpt: E\nexternal: https://example.com/x\n\n---\n\nbody\n";
    let blog = render_blog("p.md".to_string(), text.to_string()).unwrap();
    assert_eq!(blog.external.as_deref(), Some("https://example.com/x"));
    assert_eq!(blog.slug, "");
}

#[test]
fn unrecognized_code_language_renders_escaped() {
    let text = "---\ntitle: T\npublishDate: 2024-06-03\nexcerpt: E\n\n---\n\n```zqxjvuwy\nif a < b { }\n```\n";
    let blog = render_blog("p.md".to_string(), text.to_string()).unwrap();
    assert!(blog.html.contains("<pre"));
    assert!(blog.html.contains("&lt;"));
    assert!(blog.html.contains("if a "));
}

#[test]
fn recognized_code_language_is_highlighted() {
    let text = "---\ntitle: T\npublishDate: 2024-06-03\nexcerpt: E\n\n---\n\n```rs\nlet x = 1;\n```\n";
    let blog = render_blog("p.md".to_string(), text.to_string()).unwrap();
    assert!(blog.html.contains("<pre"));
    assert!(blog.html.contains("style"));
    assert!(blog.html.contains("let"));
}

#[test]
fn empty_frontmatter_region_yields_empty_mapping() {
    let events = vec![MdEvent::Rule, MdEvent::Rule, MdEvent::Text("body".to_string())];
    let (fm, rest) = parse_frontmatter(events).unwrap();
    assert!(!fm.contains_key("title"));
    assert_eq!(rest.len(), 1);
}

#[test]
fn frontmatter_entries_are_split_and_trimmed() {
    let events = vec![
        MdEvent::Rule,
        MdEvent::Text("title:  Spaced Out  ".to_string()),
        MdEvent::SoftBreak,
        MdEvent::Text("note: a:b:c".to_string()),
        MdEvent::SoftBreak,
        MdEvent::Rule,
    ];
    let (fm, rest) = parse_frontmatter(events).unwrap();
    assert_eq!(fm.get("title").unwrap().as_str(), "Spaced Out");
    assert_eq!(fm.get("note").unwrap().as_str(), "a:b:c");
    assert_eq!(rest.len(), 0);
}

#[test]
fn frontmatter_text_split_across_events_is_joined() {
    let events = vec![
        MdEvent::Rule,
        MdEvent::Text("ti".to_string()),
        MdEvent::Text("tle: T".to_string()),
        MdEvent::SoftBreak,
        MdEvent::Rule,
    ];
    let (fm, _) = parse_frontmatter(events).unwrap();
    assert_eq!(fm.get("title").unwrap().as_str(), "T");
}

#[test]
fn leading_soft_breaks_are_tolerated() {
    let events = vec![MdEvent::SoftBreak, MdEvent::Rule, MdEvent::Rule];
    assert!(parse_frontmatter(events).is_ok());
}

#[test]
fn leading_text_is_malformed() {
    let events = vec![MdEvent::Text("x".to_string()), MdEvent::Rule];
    assert!(parse_frontmatter(events).is_err());
}

#[test]
fn entry_without_colon_is_malformed() {
    let events = vec![
        MdEvent::Rule,
        MdEvent::Text("no colon here".to_string()),
        MdEvent::SoftBreak,
        MdEvent::Rule,
    ];
    assert!(parse_frontmatter(events).is_err());
}

#[test]
fn iso_dates_parse_strictly() {
    let d = parse_iso_date("2024-02-29").unwrap();
    assert_eq!((d.year, d.month, d.day), (2024, 2, 29));
    assert!(parse_iso_date("2023-02-29").is_none());
    assert!(parse_iso_date("1900-02-29").is_none());
    assert!(parse_iso_date("2000-02-29").is_some());
    assert!(parse_iso_date("2024-6-03").is_none());
    assert!(parse_iso_date("2024-06-31").is_none());
    assert!(parse_iso_date("2024-00-10").is_none());
    assert!(parse_iso_date("24-06-03").is_none());
    assert!(parse_iso_date("2024/06/03").is_none());
}

#[test]
fn display_dates_use_month_names() {
    let d = sitegen::Date { year: 2024, month: 1, day: 31 };
    assert_eq!(display_date(&d), "January 31, 2024");
    let d = sitegen::Date { year: 987, month: 12, day: 5 };
    assert_eq!(display_date(&d), "December 5, 0987");
}
