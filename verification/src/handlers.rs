//! Expansion to plain text, for callers that build the reply themselves: a
//! destination is expanded and the query parameters are appended, and the
//! result is handed on as it is, whether or not it reads as a URL.

use crate::clock::Timestamp;
use crate::eval::{agrees, is_timeless};
use crate::helpers::{ExpansionError, HelperKind, HelperSet};
use crate::query::QueryParams;
use crate::render::{effective_template, expanded_text, lemma_expansion_timeless, Renderer};
use crate::text::{find, first_occurrence, to_chars, to_text};
use vstd::prelude::*;

verus! {

/// The helpers that `setup` registers, under their names.
pub open spec fn handler_helpers() -> Map<Seq<char>, HelperKind> {
    Map::<Seq<char>, HelperKind>::empty().insert("encode"@, HelperKind::Encode).insert(
        "lowercase"@,
        HelperKind::ToLower,
    ).insert("uppercase"@, HelperKind::ToUpper).insert("trimsuffix"@, HelperKind::TrimSuffix).insert(
        "trimprefix"@,
        HelperKind::TrimPrefix,
    ).insert("now"@, HelperKind::Now).insert("nowformat"@, HelperKind::NowFormat).insert(
        "match"@,
        HelperKind::Match,
    )
}

/// The helpers that these expansions know.
pub fn setup() -> (set: HelperSet)
    ensures
        set@ == handler_helpers(),
{
    let mut set = HelperSet::new();
    set.register("encode", HelperKind::Encode);
    set.register("lowercase", HelperKind::ToLower);
    set.register("uppercase", HelperKind::ToUpper);
    set.register("trimsuffix", HelperKind::TrimSuffix);
    set.register("trimprefix", HelperKind::TrimPrefix);
    set.register("now", HelperKind::Now);
    set.register("nowformat", HelperKind::NowFormat);
    set.register("match", HelperKind::Match);
    set
}

/// `/`, which separates the segments of a path.
pub open spec fn slash() -> Seq<char> {
    seq!['/']
}

/// What follows the first `/` of `full_path`; nothing where it holds none.
pub open spec fn after_first_slash(full_path: Seq<char>) -> Seq<char> {
    match first_occurrence(full_path, slash(), 0) {
        Some(at) => full_path.subrange(at + 1, full_path.len() as int),
        None => Seq::empty(),
    }
}

/// The remaining path after the short code, which is the first segment:
/// `go/foo/bar` gives `foo/bar`.
pub fn path_remainder(full_path: &str) -> (rest: String)
    ensures
        rest@ == after_first_slash(full_path@),
{
    let full = to_chars(full_path);
    let mut mark: Vec<char> = Vec::new();
    mark.push('/');
    assert(mark@ =~= slash());
    match find(&full, &mark, 0) {
        Some(at) => to_text(&full, at + 1, full.len()),
        None => String::new(),
    }
}

/// Expands the destination `long` for the remainder `path` and the query
/// parameters at time `now`.
pub fn expand_link_at(path: &str, query_params: &QueryParams, long: &str, now: Timestamp) -> (out:
    Result<String, ExpansionError>)
    ensures
        agrees(out, expanded_text(handler_helpers(), path@, query_params@, long@, now)),
{
    let helpers = setup();
    Renderer::expand_text_at(&helpers, path, query_params, long, now)
}

/// Expands the destination `long` for the remainder `path` and the query
/// parameters at the time of the call. A destination that calls neither
/// `now` nor `nowformat` expands to what it expands to at any time.
pub fn expand_link(path: &str, query_params: QueryParams, long: &str) -> (out: Result<
    String,
    ExpansionError,
>)
    ensures
        exists|now: Timestamp|
            agrees(out, expanded_text(handler_helpers(), path@, query_params@, long@, now)),
        is_timeless(handler_helpers(), effective_template(path@, long@)) ==> forall|
            now: Timestamp,
        |
            agrees(
                out,
                #[trigger] expanded_text(handler_helpers(), path@, query_params@, long@, now),
            ),
{
    let now = Timestamp::now();
    let out = expand_link_at(path, &query_params, long, now);
    assert(agrees(out, expanded_text(handler_helpers(), path@, query_params@, long@, now)));
    proof {
        if is_timeless(handler_helpers(), effective_template(path@, long@)) {
            assert forall|t: Timestamp|
                agrees(
                    out,
                    #[trigger] expanded_text(handler_helpers(), path@, query_params@, long@, t),
                ) by {
                lemma_expansion_timeless(handler_helpers(), path@, query_params@, long@, now, t);
            }
        }
    }
    out
}

} // verus!
