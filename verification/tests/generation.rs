use sitegen::{generate_all, Blog, Date, Renderer, StrMap};
use sitegen::layout_id;
use sitegen::pages::{blog_to_blurb, generate_sitemap};

fn store(entries: &[(&str, &str)]) -> StrMap {
    let mut m = StrMap::new();
    for (k, v) in entries {
        m.insert(k.to_string(), v.to_string());
    }
    m
}

fn renderer() -> Renderer {
    Renderer::new(store(&[
        ("blurb", "[{{val(title)}}@{{val(link)}}]"),
        ("index", "I:{{val(latest_posts)}}"),
        ("all_posts", "A{{opt(posts_selected,sel,un)}}:{{val(posts)}}"),
        ("post", "P:{{val(title)}}/{{val(publish_date)}}/{{val(description)}}/{{val(contents)}}"),
    ]))
}

fn blog(title: &str, date: (u32, u32, u32), slug: &str, external: Option<&str>) -> Blog {
    Blog {
        id: format!("posts/{title}.md"),
        title: title.to_string(),
        publish_date: Date { year: date.0, month: date.1, day: date.2 },
        display_date: format!("{}-{}-{}", date.0, date.1, date.2),
        excerpt: format!("about {title}"),
        html: format!("<p>{title}</p>"),
        slug: slug.to_string(),
        external: external.map(|u| u.to_string()),
    }
}

#[test]
fn latest_three_appear_most_recent_first() {
    let blogs = vec![
        blog("a", (2024, 1, 1), "a", None),
        blog("b", (2024, 3, 1), "b", None),
        blog("c", (2023, 12, 31), "c", None),
    ];
    let pages = generate_all(blogs, renderer()).unwrap();
    let index = &pages[0];
    assert_eq!(index.path, "index.html");
    assert_eq!(index.content, "I:[b@/posts/b/][a@/posts/a/][c@/posts/c/]");
}

#[test]
fn generated_tree_layout_and_sitemap() {
    let blogs = vec![
        blog("a", (2024, 1, 1), "a", None),
        blog("b", (2024, 3, 1), "b", None),
        blog("c", (2023, 12, 31), "c", Some("https://elsewhere.example/c")),
    ];
    let pages = generate_all(blogs, renderer()).unwrap();
    let paths: Vec<&str> = pages.iter().map(|p| p.path.as_str()).collect();
    assert_eq!(
        paths,
        vec![
            "index.html",
            "posts/index.html",
            "posts/b/index.html",
            "posts/a/index.html",
            "sitemap.txt",
        ]
    );
    // The external document appears in listings but gets no page of its
    // own, and its blurb links to the external URL.
    let listing = &pages[1];
    assert_eq!(
        listing.content,
        "Asel:[b@/posts/b/][a@/posts/a/][c@https://elsewhere.example/c]"
    );
    let sitemap = pages.last().unwrap();
    assert_eq!(
        sitemap.content,
        "https://jamesholdren.com\nhttps://jamesholdren.com/posts/\nhttps://jamesholdren.com/posts/b/\nhttps://jamesholdren.com/posts/a/\n"
    );
}

#[test]
fn post_pages_carry_document_arguments() {
    let blogs = vec![
        blog("a", (2024, 1, 1), "a", None),
        blog("b", (2024, 3, 1), "b", None),
        blog("c", (2023, 12, 31), "c", None),
    ];
    let pages = generate_all(blogs, renderer()).unwrap();
    assert_eq!(pages[2].content, "P:b/2024-3-1/about b/<p>b</p>");
}

#[test]
fn generation_twice_is_byte_identical() {
    let make = || {
        vec![
            blog("a", (2024, 1, 1), "a", None),
            blog("b", (2024, 3, 1), "b", None),
            blog("c", (2023, 12, 31), "c", None),
        ]
    };
    let first = generate_all(make(), renderer()).unwrap();
    let second = generate_all(make(), renderer()).unwrap();
    assert_eq!(first.len(), second.len());
    for (p, q) in first.iter().zip(second.iter()) {
        assert_eq!(p.path, q.path);
        assert_eq!(p.content, q.content);
    }
}

#[test]
fn equal_dates_keep_input_order() {
    let blogs = vec![
        blog("x", (2024, 1, 1), "x", None),
        blog("y", (2024, 1, 1), "y", None),
        blog("z", (2024, 1, 1), "z", None),
    ];
    let pages = generate_all(blogs, renderer()).unwrap();
    assert_eq!(pages[0].content, "I:[x@/posts/x/][y@/posts/y/][z@/posts/z/]");
}

#[test]
fn failing_template_aborts_generation() {
    let r = Renderer::new(store(&[
        ("blurb", "[{{val(nosuch)}}]"),
        ("index", "I:{{val(latest_posts)}}"),
        ("all_posts", "A"),
        ("post", "P"),
    ]));
    let blogs = vec![
        blog("a", (2024, 1, 1), "a", None),
        blog("b", (2024, 3, 1), "b", None),
        blog("c", (2023, 12, 31), "c", None),
    ];
    assert!(generate_all(blogs, r).is_err());
}

#[test]
fn blurb_renders_one_document() {
    let b = blog("a", (2024, 1, 1), "a", None);
    let s = blog_to_blurb(&b, &renderer()).unwrap();
    assert_eq!(s, "[a@/posts/a/]");
}

#[test]
fn empty_slug_links_to_site_root() {
    let b = blog("home", (2024, 1, 1), "", None);
    let s = blog_to_blurb(&b, &renderer()).unwrap();
    assert_eq!(s, "[home@/]");
}

#[test]
fn sitemap_is_one_url_per_line() {
    let urls = vec!["https://one.example".to_string(), "https://two.example".to_string()];
    assert_eq!(generate_sitemap(urls), "https://one.example\nhttps://two.example\n");
}

#[test]
fn layout_ids_strip_prefix_and_suffix() {
    assert_eq!(layout_id("./layouts/post.layout.html"), "post");
    assert_eq!(layout_id("./layouts/partials/nav.layout.html"), "partials/nav");
}
