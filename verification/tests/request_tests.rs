use std::collections::HashMap;

use gohome::clock::Timestamp;
use gohome::db::{to_decimal, DbError};
use gohome::escape::{escape, EscapeSet};
use gohome::handlers;
use gohome::helpers::{trim_prefix, trim_suffix, ExpansionError};
use gohome::model::{normalized_id, short_taken, ClickStats, Link, LinkDetails, PopularLink};
use gohome::query::{merge, merged_text, query_string, read_url, QueryParams};
use gohome::render::{
    Message, Redirect, RedirectError, Renderer, INTERNAL_SERVER_ERROR, NOT_FOUND, PERMANENT_REDIRECT,
};
use gohome::routes::{target_of, trusts_caller, Target};
use gohome::text::{find, same_chars, stands_at, to_chars};
use gohome::CreateUpdateRequest;
use url::Url;

fn epoch() -> Timestamp {
    Timestamp { secs: 0, nanos: 0 }
}

fn link(short: &str, long: &str) -> Link {
    Link {
        id: normalized_id(short),
        short: short.to_string(),
        long: long.to_string(),
        created: epoch(),
        updated: epoch(),
        owner: None,
    }
}

#[test]
fn normalized_id_without_hyphen_is_the_encoding() {
    for short in ["docs", "a b", "über/uns", "100%", "a.b_c~d"] {
        assert_eq!(normalized_id(short), escape(EscapeSet::Component, short));
        assert_eq!(normalized_id(short), urlencoding::encode(short).into_owned());
    }
    assert_eq!(normalized_id("a.b_c~D9"), "a.b_c~D9");
    assert_eq!(normalized_id("über"), "%C3%BCber");
    assert_eq!(normalized_id("-"), "to");
    assert_eq!(normalized_id("%2D"), "%252D");
}

#[test]
fn escape_sets() {
    assert_eq!(escape(EscapeSet::Component, "k=v&x"), "k%3Dv%26x");
    assert_eq!(escape(EscapeSet::Query, "k=v&x y"), "k=v&x%20y");
    assert_eq!(escape(EscapeSet::Path, "a/b c?d"), "a/b%20c%3Fd");
    assert_eq!(escape(EscapeSet::Component, "\u{7f}\n"), "%7F%0A");
    assert_eq!(escape(EscapeSet::Query, "\u{7f}\n"), "%7F%0A");
    assert_eq!(escape(EscapeSet::Path, "😀"), "%F0%9F%98%80");
}

#[test]
fn remainder_removes_the_first_occurrence_only() {
    assert_eq!(Renderer::path_remainder("/a/nyt/b/nyt", "nyt"), "/a/b/nyt");
    assert_eq!(Renderer::path_remainder("/nyt/nyt", "/nyt"), "/nyt");
    assert_eq!(Renderer::path_remainder("/nytimes", "nyt"), "imes");
    assert_eq!(Renderer::path_remainder("", "nyt"), "");
    assert_eq!(Renderer::path_remainder("/x", ""), "x");
    assert_eq!(Renderer::path_remainder("Hello World", "Rust"), "Hello World");
    assert_eq!(Renderer::path_remainder("/grüß/gott", "grüß"), "/gott");
}

#[test]
fn segment_is_the_remainder_without_its_slash() {
    assert_eq!(Renderer::path_segment("/nyt/sports/article", "nyt"), "sports/article");
    assert_eq!(Renderer::path_segment("/nyt", "/nyt"), "");
    assert_eq!(Renderer::path_segment("/nyt/", "nyt"), "");
    assert_eq!(Renderer::path_segment("/nyt//a", "nyt"), "/a");
    assert_eq!(Renderer::path_segment("/post-123", "post-"), "123");
    assert_eq!(Renderer::path_segment("/Hello World", "Rust"), "Hello World");
    assert_eq!(Renderer::path_segment("Hello World", "Rust"), "Hello World");
}

#[test]
fn remainder_of_the_first_segment() {
    assert_eq!(handlers::path_remainder("go/foo/bar"), "foo/bar");
    assert_eq!(handlers::path_remainder("/foo/bar"), "foo/bar");
    assert_eq!(handlers::path_remainder("foo"), "");
    assert_eq!(handlers::path_remainder(""), "");
    assert_eq!(handlers::path_remainder("foo/"), "");
}

#[test]
fn effective_template() {
    assert_eq!(Renderer::with_path("extra", "http://h/foo"), "http://h/foo/{{path}}");
    assert_eq!(Renderer::with_path("extra", "http://h/foo/"), "http://h/foo/{{path}}");
    assert_eq!(Renderer::with_path("", "http://h/foo"), "http://h/foo");
    assert_eq!(Renderer::with_path("extra", "http://h/{{now}}"), "http://h/{{now}}");
    assert_eq!(Renderer::with_path("extra", ""), "/{{path}}");
    assert_eq!(Renderer::with_path("extra", "http://h/{x}"), "http://h/{x}/{{path}}");
}

#[test]
fn query_params_hold_each_key_once() {
    let mut params = QueryParams::new();
    assert!(params.is_empty());
    assert_eq!(params.insert("a".to_string(), "1".to_string()), None);
    assert_eq!(params.insert("b".to_string(), "2".to_string()), None);
    assert_eq!(params.insert("a".to_string(), "3".to_string()), Some("1".to_string()));
    assert_eq!(params.len(), 2);
    assert!(!params.is_empty());
    assert_eq!(params.get(&"a".to_string()), Some(&"3".to_string()));
    assert_eq!(params.get(&"c".to_string()), None);
    assert_eq!(query_string(&params), "a=3&b=2");
}

#[test]
fn merging_picks_the_separator() {
    let mut params = QueryParams::new();
    assert_eq!(merged_text("http://h/p", &params), "http://h/p");
    params.insert("k 1".to_string(), "v&1".to_string());
    assert_eq!(merged_text("http://h/p", &params), "http://h/p?k%201=v%261");
    assert_eq!(merged_text("http://h/p?x=1", &params), "http://h/p?x=1&k%201=v%261");
    params.insert("ü".to_string(), "=".to_string());
    assert_eq!(merged_text("http://h/p?", &params), "http://h/p?&k%201=v%261&%C3%BC=%3D");
    assert_eq!(merge("http://h/p", &params).unwrap(), "http://h/p?k%201=v%261&%C3%BC=%3D");
    assert_eq!(merge("h/p", &params).unwrap_err(), ExpansionError::InvalidUrl);
    assert_eq!(merge("h/p", &QueryParams::new()).unwrap_err(), ExpansionError::InvalidUrl);
}

#[test]
fn merged_parameters_are_read_back() {
    let given = [
        ("a", "1"),
        ("key with space", "value&with=marks?#"),
        ("ü", "日本語 text"),
        ("", ""),
        ("100%", "a+b-c"),
    ];
    let mut params = QueryParams::new();
    for (k, v) in given {
        params.insert(k.to_string(), v.to_string());
    }
    let merged = merge("https://example.com/search", &params).unwrap();
    let url = Url::parse(&merged).unwrap();
    let mut found: HashMap<String, String> = HashMap::new();
    for (k, v) in url.query().unwrap().split('&').map(|pair| pair.split_once('=').unwrap()) {
        found.insert(
            urlencoding::decode(k).unwrap().into_owned(),
            urlencoding::decode(v).unwrap().into_owned(),
        );
    }
    assert_eq!(found.len(), given.len());
    for (k, v) in given {
        assert_eq!(found.get(k).map(String::as_str), Some(v));
    }
}

#[test]
fn urls_are_read_and_normalized() {
    assert_eq!(read_url("https://www.google.com").unwrap(), "https://www.google.com/");
    assert_eq!(read_url("HTTP://Host.COM/a b").unwrap(), "http://host.com/a%20b");
    assert_eq!(read_url("").unwrap_err(), ExpansionError::InvalidUrl);
    assert_eq!(read_url("/relative").unwrap_err(), ExpansionError::InvalidUrl);
}

#[test]
fn expansion_fails_as_a_whole() {
    let renderer = Renderer::empty();
    let params = QueryParams::new();
    assert_eq!(
        renderer.expand_link_at("x", &params, "http://h/{{path}", epoch()).unwrap_err(),
        ExpansionError::Syntax
    );
    assert_eq!(
        renderer.expand_link_at("x", &params, "http://h/{{shout path}}", epoch()).unwrap_err(),
        ExpansionError::UnknownHelper
    );
    assert_eq!(
        renderer.expand_link_at("x", &params, "http://h/{{uppercase}}", epoch()).unwrap_err(),
        ExpansionError::Arity
    );
    assert_eq!(
        renderer.expand_link_at("x", &params, "http://h/{{uppercase true}}", epoch()).unwrap_err(),
        ExpansionError::Argument
    );
    assert_eq!(
        renderer.expand_link_at("x", &params, "{{path}}", epoch()).unwrap_err(),
        ExpansionError::InvalidUrl
    );
    assert_eq!(handlers::expand_link_at("x", &params, "{{path}}", epoch()).unwrap(), "x");
    assert_eq!(
        handlers::expand_link_at("x", &params, "{{query_escape path}}", epoch()).unwrap_err(),
        ExpansionError::UnknownHelper
    );
}

#[test]
fn literal_destinations() {
    let renderer = Renderer::empty();
    let params = QueryParams::new();
    for long in ["http://host.com/foo%2f/bar", "http://host.com/a%20b/%7Bc%7D?x=%26", "http://h/a+b%2B"] {
        assert_eq!(renderer.expand_link_at("", &params, long, epoch()).unwrap(), long);
    }
    assert_eq!(
        renderer.expand_link_at("a/b", &params, "http://host.com/foo%2f", epoch()).unwrap(),
        "http://host.com/foo%2f/a/b"
    );
    assert_eq!(
        renderer.expand_link_at("a/b", &params, "http://host.com/foo%2f/", epoch()).unwrap(),
        "http://host.com/foo%2f/a/b"
    );
    let mut one = QueryParams::new();
    one.insert("q".to_string(), "1".to_string());
    assert_eq!(
        renderer.expand_link_at("x", &one, "http://host.com/foo", epoch()).unwrap(),
        "http://host.com/foo/x?q=1"
    );
    assert_eq!(
        renderer.expand_link_at("x", &one, "http://host.com/foo?a=b", epoch()).unwrap(),
        "http://host.com/foo?a=b/x&q=1"
    );
}

#[test]
fn requests_are_answered() {
    let renderer = Renderer::empty();
    let stored = link("nyt", "https://www.nytimes.com");
    let found = renderer.get(Some(&stored), "nyt", "/nyt", QueryParams::new());
    assert_eq!(found.location, "https://www.nytimes.com/");
    assert_eq!(found.status, PERMANENT_REDIRECT);
    assert_eq!(found.status, 308);

    let deeper = renderer.get_at(Some(&stored), "nyt", "/nyt/sports", &QueryParams::new(), epoch());
    assert_eq!(deeper.location, "https://www.nytimes.com/sports");
    assert_eq!(deeper.status, 308);

    let missing = renderer.get(None, "nyt", "/nyt", QueryParams::new());
    assert_eq!(missing.location, "/");
    assert_eq!(missing.status, NOT_FOUND);
    assert_eq!(missing.status, 404);

    let broken = link("bad", "https://example.com/{{path");
    let failed = renderer.get(Some(&broken), "bad", "/bad", QueryParams::new());
    assert_eq!(failed.location, "/");
    assert_eq!(failed.status, INTERNAL_SERVER_ERROR);
    assert_eq!(failed.status, 500);
}

#[test]
fn requests_are_resolved() {
    let renderer = Renderer::empty();
    let params = QueryParams::new();
    let stored = link("wiki", "https://wiki.example.com/{{#if path}}page/{{path_escape path}}{{/if}}");
    let Redirect { location, status } =
        renderer.resolve_redirect(Some(&stored), "wiki", "/wiki/Main Page", &params).unwrap();
    assert_eq!(location, "https://wiki.example.com/page/Main%20Page");
    assert_eq!(status, 308);
    assert_eq!(
        renderer.resolve_redirect(None, "wiki", "/wiki", &params).unwrap_err(),
        RedirectError::NotFound
    );
    let broken = link("bad", "{{path}}");
    assert_eq!(
        renderer.resolve_redirect_at(Some(&broken), "bad", "/bad/x", &params, epoch()).unwrap_err(),
        RedirectError::ExpansionFailed(ExpansionError::InvalidUrl)
    );
}

#[test]
fn rows_are_counted() {
    assert!(DbError::expect_one_row(1).is_ok());
    assert_eq!(DbError::expect_one_row(0).unwrap_err().message, "expected to affect 1 row, affected 0");
    assert_eq!(DbError::expect_one_row(12).unwrap_err().message, "expected to affect 1 row, affected 12");
    assert_eq!(DbError::new("boom".to_string()).message, "boom");
    assert_eq!(DbError::from("no such table").to_text(), "no such table");
}

#[test]
fn numbers_in_decimal() {
    assert_eq!(to_decimal(0), "0");
    assert_eq!(to_decimal(7), "7");
    assert_eq!(to_decimal(10), "10");
    assert_eq!(to_decimal(1203), "1203");
    assert_eq!(to_decimal(usize::MAX), usize::MAX.to_string());
}

#[test]
fn links_are_made_and_described() {
    let request = CreateUpdateRequest { short: "rust-lang".to_string(), target: "https://rust-lang.org".to_string() };
    let made = Link::stamped(request.clone(), Timestamp { secs: 1_431_648_000, nanos: 0 });
    assert_eq!(made.id, "rusttolang");
    assert_eq!(made.short, "rust-lang");
    assert_eq!(made.long, "https://rust-lang.org");
    assert_eq!(made.created, made.updated);
    assert_eq!(made.owner, None);
    assert_eq!(
        made.to_text(),
        "rusttolang: go/rust-lang -> https://rust-lang.org [created: 2015-05-15 00:00:00 UTC, updated: 2015-05-15 00:00:00 UTC]"
    );
    let change = CreateUpdateRequest { short: "ignored".to_string(), target: "https://www.rust-lang.org".to_string() };
    let mut changed = made.retargeted(change, Timestamp { secs: 1_431_648_060, nanos: 500_000_000 });
    changed.owner = Some("ferris".to_string());
    assert_eq!(changed.short, "rust-lang");
    assert_eq!(changed.id, "rusttolang");
    assert_eq!(
        changed.to_text(),
        "rusttolang: go/rust-lang -> https://www.rust-lang.org (owner: ferris) [created: 2015-05-15 00:00:00 UTC, updated: 2015-05-15 00:01:00.500 UTC]"
    );
    let fresh = Link::from_request(request);
    assert_eq!(fresh.created, fresh.updated);
    assert!(fresh.created.secs > 1_431_648_000);
    let odd = Link { created: Timestamp { secs: i64::MIN, nanos: 0 }, ..link("a", "b") };
    assert_eq!(odd.to_text(), "a: go/a -> b [created: , updated: 1970-01-01 00:00:00 UTC]");
}

#[test]
fn clicks_are_reported() {
    let stored = link("nyt", "https://www.nytimes.com");
    let none = ClickStats { id: "nyt".to_string(), created: epoch(), clicks: None };
    let some = ClickStats { id: "nyt".to_string(), created: epoch(), clicks: Some(3) };
    let entry = PopularLink::of(&stored, &none);
    assert_eq!((entry.id.as_str(), entry.short.as_str(), entry.clicks), ("nyt", "nyt", Some(0)));
    assert_eq!(PopularLink::of(&stored, &some).clicks, Some(3));
    assert_eq!(LinkDetails::of(link("a", "b"), None).clicks, None);
    assert_eq!(LinkDetails::of(link("a", "b"), Some(&none)).clicks, Some(0));
    let details = LinkDetails::of(link("a", "b"), Some(&some));
    assert_eq!(details.clicks, Some(3));
    assert_eq!((details.id.as_str(), details.short.as_str(), details.long.as_str()), ("a", "a", "b"));
    assert_eq!((details.created, details.updated), (epoch(), epoch()));
}

#[test]
fn short_names_are_taken_once() {
    let links = vec![link("nyt", "a"), link("docs", "b")];
    assert!(short_taken(&links, "docs"));
    assert!(!short_taken(&links, "doc"));
    assert!(!short_taken(&Vec::new(), "docs"));
}

#[test]
fn messages_and_renderers() {
    assert_eq!(Message::new("Link with short code already exists").msg, "Link with short code already exists");
    assert_eq!(Renderer::empty().host, "go");
    assert_eq!(Renderer::new("links").host, "links");
}

#[test]
fn text_is_searched() {
    let hay = to_chars("abcabc");
    assert_eq!(hay, vec!['a', 'b', 'c', 'a', 'b', 'c']);
    assert_eq!(find(&hay, &to_chars("bc"), 0), Some(1));
    assert_eq!(find(&hay, &to_chars("bc"), 2), Some(4));
    assert_eq!(find(&hay, &to_chars("bc"), 5), None);
    assert_eq!(find(&hay, &to_chars("cb"), 0), None);
    assert_eq!(find(&hay, &to_chars(""), 6), Some(6));
    assert_eq!(find(&hay, &to_chars(""), 7), None);
    assert_eq!(find(&hay, &to_chars("abcabcd"), 0), None);
    assert!(stands_at(&hay, &to_chars("cab"), 2));
    assert!(!stands_at(&hay, &to_chars("cab"), 3));
    assert!(!stands_at(&hay, &to_chars("c"), 6));
    assert!(same_chars(&hay, &to_chars("abcabc")));
    assert!(!same_chars(&hay, &to_chars("abcabd")));
    assert_eq!(to_chars("grüße").len(), 5);
    assert_eq!(trim_prefix("grüße", "grü"), "ße");
    assert_eq!(trim_suffix("grüße", "ße"), "grü");
}

#[test]
fn a_plus_asks_for_details() {
    assert!(matches!(target_of("nyt+", "/nyt+"), Target::Details(short) if short == "nyt"));
    assert!(matches!(target_of("nyt", "/nyt/more+"), Target::Details(short) if short == "/nyt/more+"));
    assert!(matches!(target_of("a++", "/a++"), Target::Details(short) if short == "a+"));
    assert!(matches!(target_of("nyt", "/nyt"), Target::Follow));
    assert!(matches!(target_of("nyt+", "/nyt+/more"), Target::Follow));
    assert!(matches!(target_of("", ""), Target::Follow));
    assert!(trusts_caller("1"));
    assert!(!trusts_caller(""));
}
