use gohome::clock::Timestamp;
use gohome::helpers::{ExpansionError, HelperKind, HelperSet};
use gohome::query::QueryParams;
use gohome::render::Renderer;
use gohome::template::Template;

fn epoch() -> Timestamp {
    Timestamp { secs: 0, nanos: 0 }
}

fn render(template: &str, path: &str) -> Result<String, ExpansionError> {
    HelperSet::standard().render_template_at(template, path, epoch())
}

#[test]
fn literal_text_is_kept() {
    assert_eq!(render("plain }} text { with } braces", "x").unwrap(), "plain }} text { with } braces");
    assert_eq!(render("", "x").unwrap(), "");
}

#[test]
fn path_is_substituted_unescaped() {
    assert_eq!(render("a/{{path}}/b", "x&y <z>").unwrap(), "a/x&y <z>/b");
    assert_eq!(render("{{ path }}{{path}}", "ab").unwrap(), "abab");
}

#[test]
fn undefined_name_is_empty() {
    assert_eq!(render("[{{other}}]", "x").unwrap(), "[]");
    assert_eq!(render("[{{#if other}}yes{{else}}no{{/if}}]", "x").unwrap(), "[no]");
    assert_eq!(render("[{{uppercase other}}]", "x").unwrap(), "[]");
}

#[test]
fn flags_and_literals() {
    assert_eq!(render("{{true}} {{false}}", "").unwrap(), "true false");
    assert_eq!(render("{{#if true}}a{{else}}b{{/if}}", "").unwrap(), "a");
    assert_eq!(render("{{#if false}}a{{else}}b{{/if}}", "").unwrap(), "b");
    assert_eq!(render("{{'it''s'}}", "").unwrap_err(), ExpansionError::Syntax);
    assert_eq!(render("{{\"a b\"}}", "").unwrap(), "a b");
    assert_eq!(render("{{match 'a+' path}}", "caab").unwrap(), "true");
    assert_eq!(render("{{match 'a+' path}}", "xyz").unwrap(), "false");
}

#[test]
fn quoted_text_escapes() {
    assert_eq!(render(r#"{{"a\\b\"c\/d\n"}}"#, "").unwrap(), "a\\b\"c/d\n");
    assert_eq!(render(r#"{{'it\'s\tok\r'}}"#, "").unwrap(), "it's\tok\r");
    assert_eq!(render(r#"{{"\d"}}"#, "").unwrap_err(), ExpansionError::Syntax);
    assert_eq!(render(r#"{{"open}}"#, "").unwrap_err(), ExpansionError::Syntax);
    assert_eq!(render("{{\"tail\\", "").unwrap_err(), ExpansionError::Syntax);
}

#[test]
fn conditions_nest() {
    let template = "{{#if path}}{{#if (match '^[0-9]+$' path)}}n{{else}}t{{/if}}!{{else}}none{{/if}}";
    assert_eq!(render(template, "42").unwrap(), "n!");
    assert_eq!(render(template, "4x").unwrap(), "t!");
    assert_eq!(render(template, "").unwrap(), "none");
    assert_eq!(render("{{#if path}}a{{/if}}b", "").unwrap(), "b");
    assert_eq!(render("{{#if path}}{{/if}}", "x").unwrap(), "");
}

#[test]
fn helpers_take_nested_calls() {
    assert_eq!(render("{{uppercase (trimprefix path 'go/')}}", "go/docs").unwrap(), "DOCS");
    assert_eq!(render("{{to_upper (trim_suffix (to_lower path) '/')}}", "Docs/").unwrap(), "DOCS");
    assert_eq!(render("{{encode (trimprefix path \"a \")}}", "a b c").unwrap(), "b%20c");
}

#[test]
fn helper_names_of_both_spellings() {
    assert_eq!(render("{{lowercase path}}|{{to_lower path}}", "AbC").unwrap(), "abc|abc");
    assert_eq!(render("{{uppercase path}}|{{to_upper path}}", "AbC").unwrap(), "ABC|ABC");
    assert_eq!(render("{{trimprefix path 'A'}}|{{trim_prefix path 'A'}}", "AbC").unwrap(), "bC|bC");
    assert_eq!(render("{{trimsuffix path 'C'}}|{{trim_suffix path 'C'}}", "AbC").unwrap(), "Ab|Ab");
    assert_eq!(render("{{nowformat '%Y'}}|{{now_format '%Y'}}", "").unwrap(), "1970|1970");
    assert_eq!(
        render("{{dateformat '2020-01-02T03:04:05Z' '%d.%m.%Y'}}|{{date_format '2020-01-02T03:04:05Z' '%H'}}", "")
            .unwrap(),
        "02.01.2020|03"
    );
}

#[test]
fn case_folding_is_unicode() {
    assert_eq!(render("{{lowercase path}}", "ÀB").unwrap(), "àb");
    assert_eq!(render("{{uppercase path}}", "straße").unwrap(), "STRASSE");
}

#[test]
fn trimming_leaves_other_text_alone() {
    assert_eq!(render("{{trimprefix path 'x'}}", "abc").unwrap(), "abc");
    assert_eq!(render("{{trimsuffix path 'x'}}", "abc").unwrap(), "abc");
    assert_eq!(render("{{trimprefix path 'abcd'}}", "abc").unwrap(), "abc");
    assert_eq!(render("{{trimprefix path ''}}", "abc").unwrap(), "abc");
    assert_eq!(render("{{trimprefix path 'abc'}}", "abc").unwrap(), "");
    assert_eq!(render("{{trimsuffix path 'bc'}}", "abcbc").unwrap(), "abc");
}

#[test]
fn escapes_by_part() {
    assert_eq!(render("{{encode path}}", "a b/ü-_.~").unwrap(), "a%20b%2F%C3%BC-_.~");
    assert_eq!(render("{{query_escape path}}", "a b#c\"<>/?&=ü").unwrap(), "a%20b%23c%22%3C%3E/?&=%C3%BC");
    assert_eq!(render("{{path_escape path}}", "a b?c{d}^`e/f").unwrap(), "a%20b%3Fc%7Bd%7D%5E%60e/f");
}

#[test]
fn time_at_the_epoch() {
    assert_eq!(render("{{now}}", "").unwrap(), "1970-01-01T00:00:00+00:00");
    assert_eq!(render("{{ nowformat \"%d/%m/%Y\" }}", "").unwrap(), "01/01/1970");
    let later = Timestamp { secs: 1_600_000_000, nanos: 5_000_000 };
    assert_eq!(
        HelperSet::standard().render_template_at("{{now}}", "", later).unwrap(),
        "2020-09-13T12:26:40.005+00:00"
    );
}

#[test]
fn a_regex_that_does_not_compile_matches_nothing() {
    assert_eq!(render("{{#if (match '(' path)}}a{{else}}b{{/if}}", "(").unwrap(), "b");
}

#[test]
fn syntax_errors() {
    assert_eq!(render("{{path", "x").unwrap_err(), ExpansionError::Syntax);
    assert_eq!(render("a {{ }} b", "x").unwrap_err(), ExpansionError::Syntax);
    assert_eq!(render("{{{path}}}", "x").unwrap_err(), ExpansionError::Syntax);
    assert_eq!(render("{{path | x}}", "x").unwrap_err(), ExpansionError::Syntax);
    assert_eq!(render("{{else}}", "x").unwrap_err(), ExpansionError::Syntax);
    assert_eq!(render("{{/if}}", "x").unwrap_err(), ExpansionError::Syntax);
    assert_eq!(render("{{#if path}}a", "x").unwrap_err(), ExpansionError::Syntax);
    assert_eq!(render("{{#if path}}a{{else}}b{{else}}c{{/if}}", "x").unwrap_err(), ExpansionError::Syntax);
    assert_eq!(render("{{#if}}a{{/if}}", "x").unwrap_err(), ExpansionError::Syntax);
    assert_eq!(render("{{/each}}", "x").unwrap_err(), ExpansionError::Syntax);
    assert_eq!(render("{{else if path}}", "x").unwrap_err(), ExpansionError::Syntax);
    assert_eq!(render("{{uppercase (lowercase path}}", "x").unwrap_err(), ExpansionError::Syntax);
    assert_eq!(render("{{uppercase path)}}", "x").unwrap_err(), ExpansionError::Syntax);
    assert_eq!(render("{{uppercase ('a')}}", "x").unwrap_err(), ExpansionError::Syntax);
    assert_eq!(render("{{'a' 'b'}}", "x").unwrap_err(), ExpansionError::Syntax);
}

#[test]
fn unknown_helpers() {
    assert_eq!(render("{{shout path}}", "x").unwrap_err(), ExpansionError::UnknownHelper);
    assert_eq!(render("{{uppercase (shout path)}}", "x").unwrap_err(), ExpansionError::UnknownHelper);
    assert_eq!(render("{{#each path}}a{{/each}}", "x").unwrap_err(), ExpansionError::UnknownHelper);
    assert_eq!(render("{{#if path}}{{/if}}{{shout path}}", "").unwrap_err(), ExpansionError::UnknownHelper);
    assert_eq!(render("{{#if path}}{{shout path}}{{/if}}", "").unwrap_err(), ExpansionError::UnknownHelper);
}

#[test]
fn wrong_arity() {
    assert_eq!(render("{{uppercase}}", "x").unwrap_err(), ExpansionError::Arity);
    assert_eq!(render("{{uppercase path path}}", "x").unwrap_err(), ExpansionError::Arity);
    assert_eq!(render("{{now path}}", "x").unwrap_err(), ExpansionError::Arity);
    assert_eq!(render("{{trimprefix path}}", "x").unwrap_err(), ExpansionError::Arity);
    assert_eq!(render("{{#if (match path)}}a{{/if}}", "x").unwrap_err(), ExpansionError::Arity);
    assert_eq!(render("{{(now)}}", "x").unwrap(), "1970-01-01T00:00:00+00:00");
}

#[test]
fn arguments_that_a_helper_cannot_take() {
    assert_eq!(render("{{uppercase true}}", "x").unwrap_err(), ExpansionError::Argument);
    assert_eq!(render("{{uppercase (match 'a' path)}}", "x").unwrap_err(), ExpansionError::Argument);
    assert_eq!(render("{{dateformat 'yesterday' '%Y'}}", "x").unwrap_err(), ExpansionError::Argument);
    assert_eq!(render("{{nowformat '%Q'}}", "x").unwrap_err(), ExpansionError::Argument);
    let far = Timestamp { secs: i64::MAX, nanos: 0 };
    assert_eq!(
        HelperSet::standard().render_template_at("{{now}}", "", far).unwrap_err(),
        ExpansionError::Argument
    );
    // an error in a part that is not taken does not show
    assert_eq!(render("{{#if path}}{{uppercase true}}{{/if}}ok", "").unwrap(), "ok");
}

#[test]
fn a_set_of_ones_own() {
    let mut helpers = HelperSet::new();
    assert_eq!(helpers.lookup(&"up".chars().collect()), None);
    helpers.register("up", HelperKind::ToLower);
    helpers.register("up", HelperKind::ToUpper);
    assert_eq!(helpers.lookup(&"up".chars().collect()), Some(HelperKind::ToUpper));
    assert_eq!(helpers.render_template_at("{{up path}}", "abc", epoch()).unwrap(), "ABC");
    assert_eq!(
        helpers.render_template_at("{{uppercase path}}", "abc", epoch()).unwrap_err(),
        ExpansionError::UnknownHelper
    );
    let renderer = Renderer::with_helpers("links", helpers);
    assert_eq!(renderer.host, "links");
    assert_eq!(
        renderer.expand_link("abc", QueryParams::new(), "http://h/{{up path}}").unwrap(),
        "http://h/ABC"
    );
}

#[test]
fn a_template_is_read_once_and_rendered_often() {
    let helpers = HelperSet::standard();
    let template = Template::parse("{{#if path}}<{{path}}>{{else}}-{{/if}}", &helpers).unwrap();
    assert_eq!(template.nodes.len(), 1);
    assert_eq!(template.render("a", epoch()).unwrap(), "<a>");
    assert_eq!(template.render("", epoch()).unwrap(), "-");
    assert!(Template::parse("{{#if path}}", &helpers).is_err());
}

#[test]
fn rendering_without_the_clock_is_repeatable() {
    let renderer = Renderer::empty();
    let long = "https://example.com/{{#if path}}s?q={{query_escape path}}{{/if}}";
    let first = renderer.expand_link("a b", QueryParams::new(), long).unwrap();
    let second = renderer.expand_link("a b", QueryParams::new(), long).unwrap();
    assert_eq!(first, second);
    assert_eq!(first, "https://example.com/s?q=a%20b");
    let early = renderer.expand_link_at("a b", &QueryParams::new(), long, epoch()).unwrap();
    let late = renderer
        .expand_link_at("a b", &QueryParams::new(), long, Timestamp { secs: 4_000_000_000, nanos: 1 })
        .unwrap();
    assert_eq!(early, late);
    assert_eq!(early, first);
}

#[test]
fn errors_say_what_went_wrong() {
    assert_eq!(ExpansionError::Syntax.to_text(), "the pattern is not well formed");
    assert_eq!(ExpansionError::UnknownHelper.to_text(), "the pattern calls an unknown helper");
    assert_eq!(ExpansionError::Arity.to_text(), "a helper is called with the wrong number of arguments");
    assert_eq!(ExpansionError::Argument.to_text(), "a helper is given a value it cannot work on");
    assert_eq!(ExpansionError::InvalidUrl.to_text(), "the expanded text is not a URL");
}
