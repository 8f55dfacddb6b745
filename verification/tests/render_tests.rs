use std::any::Any;
use std::collections::HashMap;

use chrono::Utc;
use gohome::query::QueryParams;
use gohome::render::Renderer;
use url::Url;

#[test]
fn test_query_escape() {
    let renderer = Renderer::empty();
    let res = renderer
        .expand_link(
            "",
            QueryParams::new(),
            "https://www.google.com/{{#if path}}search?q={{query_escape path}}{{/if}}",
        )
        .unwrap()
        .to_string();
    assert_eq!(res, "https://www.google.com/");
}

#[test]
fn test_query_escape_1() {
    let renderer = Renderer::empty();
    let res = renderer
        .expand_link(
            "Tolstoy",
            QueryParams::new(),
            "https://www.google.com/{{#if path}}search?q={{query_escape path}}{{/if}}",
        )
        .unwrap()
        .to_string();
    assert_eq!(res, "https://www.google.com/search?q=Tolstoy");
}

#[test]
fn test_query_escape_2() {
    let renderer = Renderer::empty();
    let res = renderer
        .expand_link(
            "Foo Bar baz",
            QueryParams::new(),
            "https://www.google.com/{{#if path}}search?q={{query_escape path}}{{/if}}",
        )
        .unwrap()
        .to_string();
    assert_eq!(res, "https://www.google.com/search?q=Foo%20Bar%20baz");
}

#[test]
fn test_query_escape_3() {
    let mut query_params = QueryParams::new();
    query_params.insert("a".to_string(), "1".to_string());
    query_params.insert("bb".to_string(), "2".to_string());

    let renderer = Renderer::empty();
    let res = renderer
        .expand_link(
            "Foo Bar baz",
            query_params,
            "https://www.google.com/{{#if path}}search?q={{query_escape path}}{{/if}}",
        )
        .unwrap()
        .to_string();
    let url = Url::parse(&res).unwrap();
    let pairs = url.query_pairs();
    assert!(pairs.count() == 3);

    let mut query_map: HashMap<String, String> = HashMap::new();
    for pair in pairs {
        query_map.insert(pair.0.to_string(), pair.1.to_string());
    }
    assert_eq!(*query_map.get("q").unwrap(), String::from("Foo Bar baz"));
    assert_eq!(*query_map.get("a").unwrap(), String::from("1"));
    assert_eq!(*query_map.get("bb").unwrap(), String::from("2"));
}

#[test]
fn render_test_path() {
    let renderer = Renderer::empty();
    let res = renderer
        .helpers
        .render_template(
            "https://www.nytimes.com/{{#if path}}{{path}}{{/if}}",
            "2025/09/05/theater/broadway.html",
        )
        .unwrap();
    assert_eq!(res, "https://www.nytimes.com/2025/09/05/theater/broadway.html");
}

#[test]
fn render_test_path_escape() {
    let renderer = Renderer::empty();
    let res = renderer
        .helpers
        .render_template(
            "https://www.nytimes.com/{{#if path}}{{path_escape path}}{{/if}}",
            "2025/09/05/theater/broadway.html",
        )
        .unwrap();
    assert_eq!(res, "https://www.nytimes.com/2025/09/05/theater/broadway.html");
}

#[test]
fn render_test_to_lower() {
    let renderer = Renderer::empty();
    let res = renderer
        .helpers
        .render_template("{{#if path}}{{lowercase path}}{{/if}}", "SAMIAM")
        .unwrap();
    assert_eq!(res, "samiam");
}

#[test]
fn render_test_to_upper() {
    let renderer = Renderer::empty();
    let res = renderer
        .expand_link(
            "samiam",
            QueryParams::new(),
            "http://foo/{{#if path}}{{uppercase path}}{{/if}}",
        )
        .unwrap()
        .to_string();
    assert_eq!(res, "http://foo/SAMIAM");
}

#[test]
fn render_test_trim_suffix() {
    let renderer = Renderer::empty();
    let res = renderer
        .expand_link(
            "a/",
            QueryParams::new(),
            "http://foo/{{#if path}}{{trimsuffix path '/'}}{{/if}}",
        )
        .unwrap()
        .to_string();
    assert_eq!(res, "http://foo/a");
}

#[test]
fn render_test_trim_suffix_1() {
    let renderer = Renderer::empty();
    let res = renderer
        .expand_link(
            "hello, world",
            QueryParams::new(),
            "http://foo/{{trimsuffix path ', world'}}",
        )
        .unwrap()
        .to_string();
    assert_eq!(res, "http://foo/hello");
}

#[test]
fn render_test_trim_suffix_2() {
    let renderer = Renderer::empty();
    let res = renderer
        .expand_link(
            "",
            QueryParams::new(),
            "http://foo/{{#if path}}{{trimsuffix path '/'}}{{/if}}",
        )
        .unwrap()
        .to_string();
    assert_eq!(res, "http://foo/");
}

#[test]
fn render_test_prefix() {
    let renderer = Renderer::empty();
    let res = renderer
        .expand_link(
            "OOOa",
            QueryParams::new(),
            "http://foo/{{#if path}}{{trimprefix path 'OOO'}}{{/if}}",
        )
        .unwrap()
        .to_string();
    assert_eq!(res, "http://foo/a");
}

#[test]
fn render_test_prefix_1() {
    let renderer = Renderer::empty();
    let res = renderer
        .expand_link(
            "hello, world",
            QueryParams::new(),
            "http://foo/{{trimprefix path 'hello, '}}",
        )
        .unwrap()
        .to_string();
    assert_eq!(res, "http://foo/world");
}

#[test]
fn render_test_prefix_2() {
    let renderer = Renderer::empty();
    let res = renderer
        .expand_link(
            "",
            QueryParams::new(),
            "http://foo/{{#if path}}{{trimprefix path '/'}}{{/if}}",
        )
        .unwrap()
        .to_string();
    assert_eq!(res, "http://foo/");
}

#[test]
fn render_test_now_with_path() {
    let renderer = Renderer::empty();
    let res = renderer
        .expand_link("foobar", QueryParams::new(), "http://foo/{{ now }}")
        .unwrap()
        .to_string();
    assert!(!res.is_empty());
    let url = Url::parse(&res).unwrap();
    // n should just be the date -- no path in template
    let n = url.path_segments().unwrap().last().unwrap();
    let parsed: chrono::DateTime<Utc> = n.parse().unwrap();
    assert!(parsed.type_id() == std::any::TypeId::of::<chrono::DateTime<Utc>>());
}

#[test]
fn render_test_now_no_path() {
    let renderer = Renderer::empty();
    let res = renderer
        .expand_link("", QueryParams::new(), "http://foo/{{ now }}")
        .unwrap()
        .to_string();
    assert!(!res.is_empty());
    let url = Url::parse(&res).unwrap();
    // n should just be the date -- no path in template
    let n = url.path_segments().unwrap().last().unwrap();
    let parsed: chrono::DateTime<Utc> = n.parse().unwrap();
    assert!(parsed.type_id() == std::any::TypeId::of::<chrono::DateTime<Utc>>());
}

#[test]
fn render_test_match() {
    let renderer = Renderer::empty();
    let res = renderer
        .expand_link(
            "123",
            QueryParams::new(),
            r#"http://host.com/{{#if (match "\\d+" path)}}id/{{path}}{{else}}search/{{path}}{{/if}}"#,
        )
        .unwrap()
        .to_string();
    assert_eq!(res, "http://host.com/id/123");
}

#[test]
fn render_test_match_1() {
    let renderer = Renderer::empty();
    let res = renderer
        .expand_link(
            "foo",
            QueryParams::new(),
            r#"http://host.com/{{#if (match "\\d+" path)}}id/{{path}}{{else}}search/{{path}}{{/if}}"#,
        )
        .unwrap()
        .to_string();
    assert_eq!(res, "http://host.com/search/foo");
}

#[test]
fn render_test_no_mangle_escapes() {
    let renderer = Renderer::empty();
    let res = renderer
        .expand_link("", QueryParams::new(), "http://host.com/foo%2f/bar")
        .unwrap()
        .to_string();
    assert_eq!(res, "http://host.com/foo%2f/bar");
}

#[test]
fn render_test_no_mangle_escapes_with_path() {
    let renderer = Renderer::empty();
    let res = renderer
        .expand_link("extra", QueryParams::new(), "http://host.com/foo%2f/bar")
        .unwrap()
        .to_string();
    assert_eq!(res, "http://host.com/foo%2f/bar/extra");
}

#[test]
fn render_test_remainder() {
    let renderer = Renderer::empty();
    let res = renderer
        .expand_link("extra", QueryParams::new(), "http://host.com/foo")
        .unwrap()
        .to_string();
    assert_eq!(res, "http://host.com/foo/extra");
}

#[test]
fn render_test_remainder_with_slash() {
    let renderer = Renderer::empty();
    let res = renderer
        .expand_link("extra", QueryParams::new(), "http://host.com/foo/")
        .unwrap()
        .to_string();
    assert_eq!(res, "http://host.com/foo/extra");
}

#[test]
fn render_test_now_format() {
    let renderer = Renderer::empty();
    let res = renderer
        .expand_link(
            "",
            QueryParams::new(),
            r#"https://roamresearch.com/#/app/ts-corp/page/{{ nowformat "%d/%m/%Y"}}"#,
        )
        .unwrap()
        .to_string();
    let path = res.strip_prefix("https://").unwrap();
    let segments: Vec<&str> = path.split("/").collect();
    assert!(segments.len() == 8); // roamresearch.com + # + app + ts-corp + page + d + m + Y = 8
}

#[test]
fn render_test_undefined_field() {
    let renderer = Renderer::empty();
    let res = renderer
        .expand_link("bar", QueryParams::new(), "http://host.com/{{ bar }}")
        .unwrap()
        .to_string();
    assert_eq!(res, "http://host.com/");
}

#[test]
fn render_test_defined_field() {
    let renderer = Renderer::empty();
    let res = renderer
        .expand_link("bar", QueryParams::new(), "http://host.com/{{path}}")
        .unwrap()
        .to_string();
    assert_eq!(res, "http://host.com/bar");
}

#[test]
fn test_path_remainder_1() {
    let request_path = "/nyt/sports/article";
    let slug_to_remove = "nyt";
    let result = Renderer::path_remainder(request_path, slug_to_remove);
    assert_eq!(result, "/sports/article");
}

#[test]
fn test_path_remainder_2() {
    let request_id = "/post-123-post-456";
    let first_post = "post-";
    let result = Renderer::path_remainder(request_id, first_post);
    assert_eq!(result, "123-post-456");
}

#[test]
fn test_path_remainder_3() {
    let request_text = "/Hello World";
    let not_found = "Rust";
    let result = Renderer::path_remainder(request_text, not_found);
    assert_eq!(result, request_text);
}

#[test]
fn test_path_remainder_4() {
    let request_path = "/nyt";
    let slug_to_remove = "/nyt";
    let result = Renderer::path_remainder(request_path, slug_to_remove);
    assert_eq!(result, "");
}
