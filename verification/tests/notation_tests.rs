//! Patterns are written in a subset of the Handlebars notation. These tests
//! hold the library against the `handlebars` crate, set up with the same
//! helpers and without HTML escaping, on patterns of that subset.

use gohome::clock::Timestamp;
use gohome::helpers::HelperSet;
use handlebars::{
    no_escape, Context, Handlebars, Helper, HelperDef, RenderContext, RenderError, RenderErrorReason,
    ScopedJson,
};
use serde_json::Value;

/// A helper over text arguments, as many as `params`.
struct TextHelper {
    params: usize,
    run: fn(&[String]) -> Value,
}

impl HelperDef for TextHelper {
    fn call_inner<'reg: 'rc, 'rc>(
        &self,
        h: &Helper<'rc>,
        _: &'reg Handlebars<'reg>,
        _: &'rc Context,
        _: &mut RenderContext<'reg, 'rc>,
    ) -> Result<ScopedJson<'rc>, RenderError> {
        let mut args = Vec::new();
        for i in 0..self.params {
            let text = h
                .param(i)
                .and_then(|p| p.value().as_str())
                .ok_or_else(|| RenderErrorReason::Other(format!("argument {i}")))?;
            args.push(text.to_string());
        }
        Ok(ScopedJson::Derived((self.run)(&args)))
    }
}

fn text(params: usize, run: fn(&[String]) -> Value) -> Box<TextHelper> {
    Box::new(TextHelper { params, run })
}

fn reference() -> Handlebars<'static> {
    let mut bars = Handlebars::new();
    bars.register_escape_fn(no_escape);
    bars.register_helper("query_escape", text(1, |a| Value::from(url_escape::encode_query(&a[0]).into_owned())));
    bars.register_helper("path_escape", text(1, |a| Value::from(url_escape::encode_path(&a[0]).into_owned())));
    bars.register_helper("encode", text(1, |a| Value::from(urlencoding::encode(&a[0]).into_owned())));
    bars.register_helper("lowercase", text(1, |a| Value::from(a[0].to_lowercase())));
    bars.register_helper("uppercase", text(1, |a| Value::from(a[0].to_uppercase())));
    bars.register_helper(
        "trimsuffix",
        text(2, |a| Value::from(a[0].strip_suffix(a[1].as_str()).unwrap_or(&a[0]).to_string())),
    );
    bars.register_helper(
        "trimprefix",
        text(2, |a| Value::from(a[0].strip_prefix(a[1].as_str()).unwrap_or(&a[0]).to_string())),
    );
    bars.register_helper(
        "match",
        text(2, |a| Value::from(regex::Regex::new(&a[0]).map(|r| r.is_match(&a[1])).unwrap_or(false))),
    );
    bars
}

fn by_reference(bars: &Handlebars<'static>, template: &str, path: &str) -> Option<String> {
    let mut data = serde_json::Map::new();
    data.insert("path".to_string(), Value::String(path.to_string()));
    bars.render_template(template, &Value::Object(data)).ok()
}

fn by_library(helpers: &HelperSet, template: &str, path: &str) -> Option<String> {
    helpers.render_template_at(template, path, Timestamp { secs: 0, nanos: 0 }).ok()
}

const PATHS: [&str; 9] =
    ["", "x", "Tolstoy", "Foo Bar baz", "123", "a/b/c.html", "OOOa/", "hello, world", "Grüße?q=1&r=<2>#3"];

const TEMPLATES: [&str; 30] = [
    "",
    "plain text",
    "https://www.google.com/{{#if path}}search?q={{query_escape path}}{{/if}}",
    "https://www.google.com/{{#if path}}search?q={{encode path}}{{/if}}",
    "https://www.nytimes.com/{{#if path}}{{path}}{{/if}}",
    "https://www.nytimes.com/{{#if path}}{{path_escape path}}{{/if}}",
    "{{#if path}}{{lowercase path}}{{/if}}",
    "http://foo/{{#if path}}{{uppercase path}}{{/if}}",
    "http://foo/{{#if path}}{{trimsuffix path '/'}}{{/if}}",
    "http://foo/{{trimsuffix path ', world'}}",
    "http://foo/{{#if path}}{{trimprefix path 'OOO'}}{{/if}}",
    "http://foo/{{trimprefix path 'hello, '}}",
    r#"http://host.com/{{#if (match "\\d+" path)}}id/{{path}}{{else}}search/{{path}}{{/if}}"#,
    "http://host.com/foo%2f/bar",
    "http://host.com/{{ bar }}",
    "http://host.com/{{path}}",
    "{{ path }}|{{path }}|{{  path}}",
    "{{#if path}}a{{else}}b{{/if}}{{#if other}}c{{else}}d{{/if}}",
    "{{#if path}}{{#if (match '^[0-9]+$' path)}}n{{else}}t{{/if}}{{else}}-{{/if}}",
    "{{uppercase (trimprefix (lowercase path) 'ooo')}}",
    r#"{{trimprefix path "hello, "}}{{trimsuffix path "\/"}}"#,
    "{{match '^[a-z]+$' path}}",
    "{{#if (match '(' path)}}a{{else}}b{{/if}}",
    "a }} b { c } d",
    "{{path",
    "{{#if path}}a",
    "{{#if path}}a{{else}}b",
    "{{uppercase path",
    "{{uppercase (lowercase path}}",
    "{{shout path}}",
];

#[test]
fn the_library_renders_as_handlebars_does() {
    let bars = reference();
    let helpers = HelperSet::standard();
    for template in TEMPLATES {
        for path in PATHS {
            assert_eq!(
                by_library(&helpers, template, path),
                by_reference(&bars, template, path),
                "template {template:?}, path {path:?}"
            );
        }
    }
}
