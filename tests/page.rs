use webcrawler::page::{
    canonical_to_mark, collect_body_text, first_element_text_of, parse_html, parse_html_with, text_nodes_of, MetaTag,
    ParsedHtml,
};

const PAGE: &str = r#"<!DOCTYPE html>
<html lang="en"><head>
<title>Hello World</title>
<meta name="description" content="A page">
<meta charset="utf-8">
<meta name="keywords" content="a, b">
<link rel="canonical" href="https://en.wikipedia.org/wiki/First">
<link rel="canonical" href="https://en.wikipedia.org/wiki/X">
</head>
<body>Top
<p>  First  </p>
<div>Second <span>Third</span></div>
<a href="/wiki/Foo">foo</a>
<a href="https://example.com/x">ext</a>
<a href="/img/pic.png">pic</a>
<a href="https://en.wikipedia.org/wiki/Bar/?utm_source=z#f">bar</a>
<a name="no-href">none</a>
</body></html>"#;

#[test]
fn extracts_all_fields() {
    let p = parse_html(PAGE.to_string(), "https://en.wikipedia.org/wiki/X?foo=1");
    assert_eq!(p.url, "https://en.wikipedia.org/wiki/X?foo=1");
    assert_eq!(p.language.as_deref(), Some("en"));
    assert_eq!(p.title.as_deref(), Some("Hello World"));
    let metas: Vec<(String, String)> = p.meta_tags.iter().map(|m| (m.name.clone(), m.content.clone())).collect();
    assert_eq!(
        metas,
        vec![("description".to_string(), "A page".to_string()), ("keywords".to_string(), "a, b".to_string())]
    );
    assert_eq!(p.canonical_url.as_deref(), Some("https://en.wikipedia.org/wiki/X"));
    assert_eq!(p.content_text, "Top First Second Third foo ext pic bar none");
    assert_eq!(
        p.links,
        vec!["https://en.wikipedia.org/wiki/Foo".to_string(), "https://en.wikipedia.org/wiki/Bar".to_string()]
    );
}

#[test]
fn other_allowed_domain() {
    let p = parse_html_with(PAGE, "https://en.wikipedia.org/wiki/X", "example.com");
    assert_eq!(p.links, vec!["https://example.com/x".to_string()]);
}

#[test]
fn empty_document() {
    let p = parse_html(String::new(), "https://en.wikipedia.org/");
    assert_eq!(p.language, None);
    assert_eq!(p.title, None);
    assert!(p.meta_tags.is_empty());
    assert_eq!(p.canonical_url, None);
    assert_eq!(p.content_text, "");
    assert!(p.links.is_empty());
}

#[test]
fn malformed_html_does_not_crash() {
    let p = parse_html("<html><body><p>open <a href='/wiki/Z'>z".to_string(), "https://en.wikipedia.org/wiki/Y");
    assert_eq!(p.links, vec!["https://en.wikipedia.org/wiki/Z".to_string()]);
    assert_eq!(p.content_text, "open z");
}

#[test]
fn body_text_trims_and_joins() {
    let chunks = vec!["  a ".to_string(), "\n\t".to_string(), "b".to_string(), "".to_string(), " c\u{a0}".to_string()];
    assert_eq!(collect_body_text(&chunks), "a b c");
}

fn chunk(t: &str, last: bool) -> Option<(String, bool)> {
    Some((t.to_string(), last))
}

#[test]
fn title_is_the_first_elements_text() {
    assert_eq!(first_element_text_of(&vec![]), None);
    let events = vec![None, chunk("Hel", false), chunk("lo", true), None, chunk("Other", true)];
    assert_eq!(first_element_text_of(&events), Some("Hello".to_string()));
    assert_eq!(first_element_text_of(&vec![None]), Some(String::new()));
}

#[test]
fn only_first_title_element_counts() {
    let p = parse_html(
        "<html><head><title>One</title></head><body><svg><title>Two</title></svg></body></html>".to_string(),
        "https://en.wikipedia.org/",
    );
    assert_eq!(p.title.as_deref(), Some("One"));
}

#[test]
fn chunks_join_into_text_nodes_before_trimming() {
    let events = vec![None, chunk(" Hel", false), chunk("lo ", true), None, chunk("wor", false), chunk("ld", true), chunk("tail", false)];
    let nodes = text_nodes_of(&events);
    assert_eq!(nodes, vec![" Hello ".to_string(), "world".to_string(), "tail".to_string()]);
    assert_eq!(collect_body_text(&nodes), "Hello world tail");
    assert_eq!(text_nodes_of(&vec![]), vec![String::new()]);
}

fn page(url: &str, canonical: Option<&str>) -> ParsedHtml {
    ParsedHtml {
        url: url.to_string(),
        language: None,
        title: None,
        meta_tags: vec![MetaTag { name: "n".to_string(), content: "c".to_string() }],
        canonical_url: canonical.map(|c| c.to_string()),
        content_text: String::new(),
        links: vec![],
    }
}

#[test]
fn canonical_marked_only_when_different() {
    assert_eq!(
        canonical_to_mark(&page("https://en.wikipedia.org/wiki/X?foo=1", Some("https://en.wikipedia.org/wiki/X"))),
        Some("https://en.wikipedia.org/wiki/X".to_string())
    );
    assert_eq!(canonical_to_mark(&page("https://a.org/", Some("https://a.org/"))), None);
    assert_eq!(canonical_to_mark(&page("https://a.org/", None)), None);
}
