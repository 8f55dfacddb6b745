//! From a request to its redirect: the remainder of the path, the template
//! that a destination pattern stands for, its expansion, and the reply.

use crate::clock::Timestamp;
use crate::eval::{
    agrees, is_timeless, lemma_rendering_timeless, named, node_reads_clock, nodes_read_clock,
    rendered, rendered_node, rendering,
};
use crate::helpers::{
    lemma_path_is_no_helper, standard_helpers, ExpansionError, HelperKind, HelperSet,
};
use crate::model::Link;
use crate::query::{merged, merged_text, read_url, url_of, QueryParams};
use crate::syntax::{atom, expression, tokens, word_end, ExprModel, TokenModel};
use crate::template::{
    block, close_mark, lead, open_mark, parsed, tag, NodeModel, Stop, TagModel,
};
use crate::text::{
    contains_text, find, first_occurrence, lemma_first_occurrence, lemma_first_occurrence_is,
    occurs_at, to_chars, to_text,
};
use vstd::prelude::*;
use vstd::string::*;

verus! {

/// The short code as it stands in a path: with one `/` in front.
pub open spec fn slug_of(short: Seq<char>) -> Seq<char> {
    if short.len() > 0 && short[0] == '/' {
        short
    } else {
        seq!['/'] + short
    }
}

/// `full` without the first occurrence of `slug`: what stands before it and
/// what stands after it. `full` itself where `slug` does not occur.
pub open spec fn excised(full: Seq<char>, slug: Seq<char>) -> Seq<char> {
    match first_occurrence(full, slug, 0) {
        Some(at) => full.subrange(0, at) + full.subrange(at + slug.len(), full.len() as int),
        None => full,
    }
}

/// What a request for `full_path` adds to the short code `short`.
pub open spec fn remainder(full_path: Seq<char>, short: Seq<char>) -> Seq<char> {
    excised(full_path, slug_of(short))
}

/// The remainder of a path in which the short code stands, and nowhere
/// earlier, is what stands before it followed by what stands after it; the
/// remainder of a path in which it stands nowhere is the path.
pub proof fn lemma_remainder(before: Seq<char>, short: Seq<char>, after: Seq<char>)
    ensures
        (forall|j: int| 0 <= j < before.len() ==> !occurs_at(
            before + slug_of(short) + after,
            slug_of(short),
            j,
        )) ==> remainder(before + slug_of(short) + after, short) == before + after,
        (forall|j: int| 0 <= j ==> !occurs_at(before, slug_of(short), j)) ==> remainder(
            before,
            short,
        ) == before,
{
    let slug = slug_of(short);
    let full = before + slug + after;
    if forall|j: int| 0 <= j < before.len() ==> !occurs_at(full, slug, j) {
        assert(occurs_at(full, slug, before.len() as int)) by {
            assert(full.subrange(before.len() as int, (before.len() + slug.len()) as int) =~= slug);
        }
        lemma_first_occurrence_is(full, slug, 0, before.len() as int);
        assert(full.subrange(0, before.len() as int) =~= before);
        assert(full.subrange((before.len() + slug.len()) as int, full.len() as int) =~= after);
    }
    lemma_first_occurrence(before, slug, 0);
}

/// `text` without one `/` at its start.
pub open spec fn without_leading_slash(text: Seq<char>) -> Seq<char> {
    if text.len() > 0 && text[0] == '/' {
        text.drop_first()
    } else {
        text
    }
}

/// The remainder of a request as it is handed to the link's destination:
/// what the request adds to the short code, without one `/` at its start.
pub open spec fn segment(full_path: Seq<char>, short: Seq<char>) -> Seq<char> {
    without_leading_slash(remainder(full_path, short))
}

/// The template that the destination `long` stands for. A destination
/// without `{{` takes the remainder as one more path segment, where there is
/// one; any other destination is its own template.
pub open spec fn effective_template(path: Seq<char>, long: Seq<char>) -> Seq<char> {
    if !contains_text(long, open_mark()) && path.len() > 0 {
        if long.len() > 0 && long.last() == '/' {
            long + "{{path}}"@
        } else {
            long + "/{{path}}"@
        }
    } else {
        long
    }
}

/// The text that the destination `long` expands to for the remainder `path`
/// and the query parameters `pairs` at time `now`: what its template renders
/// to, with the parameters appended.
pub open spec fn expanded_text(
    helpers: Map<Seq<char>, HelperKind>,
    path: Seq<char>,
    pairs: Seq<(Seq<char>, Seq<char>)>,
    long: Seq<char>,
    now: Timestamp,
) -> Result<Seq<char>, ExpansionError> {
    match rendering(helpers, effective_template(path, long), path, now) {
        Ok(text) => Ok(merged(text, pairs)),
        Err(e) => Err(e),
    }
}

/// The URL that the destination `long` expands to for the remainder `path`
/// and the query parameters `pairs` at time `now`: the expanded text, read
/// as a URL.
pub open spec fn expansion(
    helpers: Map<Seq<char>, HelperKind>,
    path: Seq<char>,
    pairs: Seq<(Seq<char>, Seq<char>)>,
    long: Seq<char>,
    now: Timestamp,
) -> Result<Seq<char>, ExpansionError> {
    match expanded_text(helpers, path, pairs, long, now) {
        Ok(text) => url_of(text),
        Err(e) => Err(e),
    }
}

/// The status of a redirect that is to be remembered.
pub const PERMANENT_REDIRECT: u16 = 308;

/// The status for a short code without a link.
pub const NOT_FOUND: u16 = 404;

/// The status for a link whose destination does not expand.
pub const INTERNAL_SERVER_ERROR: u16 = 500;

/// Why a request has no destination.
#[derive(Clone, Copy, Debug, PartialEq, Eq, Structural)]
pub enum RedirectError {
    /// No link is stored for the short code.
    NotFound,
    /// The link's destination does not expand to a URL.
    ExpansionFailed(ExpansionError),
}

/// A reply that sends the visitor on: where to, and with which status.
#[derive(Clone, Debug)]
pub struct Redirect {
    pub location: String,
    pub status: u16,
}

/// The destination of a request, or why it has none: `long` is the stored
/// destination of the short code, if a link is stored for it.
pub open spec fn resolution(
    helpers: Map<Seq<char>, HelperKind>,
    long: Option<Seq<char>>,
    short: Seq<char>,
    full_path: Seq<char>,
    pairs: Seq<(Seq<char>, Seq<char>)>,
    now: Timestamp,
) -> Result<Seq<char>, RedirectError> {
    match long {
        None => Err(RedirectError::NotFound),
        Some(long) => match expansion(helpers, segment(full_path, short), pairs, long, now) {
            Ok(url) => Ok(url),
            Err(e) => Err(RedirectError::ExpansionFailed(e)),
        },
    }
}

/// `out` is the redirect or the error that `model` says.
pub open spec fn resolved(out: Result<Redirect, RedirectError>, model: Result<
    Seq<char>,
    RedirectError,
>) -> bool {
    match out {
        Ok(redirect) => {
            &&& model == Ok::<Seq<char>, RedirectError>(redirect.location@)
            &&& redirect.status == PERMANENT_REDIRECT
        },
        Err(e) => model == Err::<Seq<char>, RedirectError>(e),
    }
}

/// The place and the status that a request is answered with: the
/// destination and 308, or `/` and the status of what went wrong.
pub open spec fn reply(resolved: Result<Seq<char>, RedirectError>) -> (Seq<char>, u16) {
    match resolved {
        Ok(url) => (url, PERMANENT_REDIRECT),
        Err(RedirectError::NotFound) => ("/"@, NOT_FOUND),
        Err(RedirectError::ExpansionFailed(_)) => ("/"@, INTERNAL_SERVER_ERROR),
    }
}

/// The stored destination of a link, if there is one.
pub open spec fn destination(link: Option<&Link>) -> Option<Seq<char>> {
    match link {
        Some(link) => Some(link.long@),
        None => None,
    }
}

/// A reply that is a plain message.
#[derive(Debug)]
pub struct Message {
    pub msg: String,
}

impl Message {
    /// The reply that says `message`.
    pub fn new(message: &str) -> (reply: Message)
        ensures
            reply.msg@ == message@,
    {
        Message { msg: message.to_owned() }
    }
}

/// Expands links for one host, with one set of helpers.
#[derive(Clone, Debug)]
pub struct Renderer {
    /// The host that serves the short links, as in `go`.
    pub host: String,
    /// The helpers that destination patterns can call.
    pub helpers: HelperSet,
}

impl Renderer {
    /// A renderer for the host `go` with the standard helpers.
    pub fn empty() -> (renderer: Renderer)
        ensures
            renderer.host@ == "go"@,
            renderer.helpers@ == standard_helpers(),
    {
        Renderer::new("go")
    }

    /// A renderer for `host` with the standard helpers.
    pub fn new(host: &str) -> (renderer: Renderer)
        ensures
            renderer.host@ == host@,
            renderer.helpers@ == standard_helpers(),
    {
        Renderer { host: host.to_owned(), helpers: HelperSet::standard() }
    }

    /// A renderer for `host` with the helpers of `helpers`.
    pub fn with_helpers(host: &str, helpers: HelperSet) -> (renderer: Renderer)
        ensures
            renderer.host@ == host@,
            renderer.helpers@ == helpers@,
    {
        Renderer { host: host.to_owned(), helpers }
    }

    /// What the request path `full_path` adds to the short code: the path
    /// without the first occurrence of the short code and the `/` before it.
    pub fn path_remainder(full_path: &str, short_slug: &str) -> (rest: String)
        ensures
            rest@ == remainder(full_path@, short_slug@),
    {
        let full = to_chars(full_path);
        let short = to_chars(short_slug);
        let mut slug: Vec<char> = Vec::new();
        if !(short.len() > 0 && short[0] == '/') {
            slug.push('/');
        }
        let mut i: usize = 0;
        let ghost start = slug@;
        while i < short.len()
            invariant
                i <= short.len(),
                slug@ == start + short@.take(i as int),
            decreases short.len() - i,
        {
            slug.push(short[i]);
            assert(short@.take(i + 1) =~= short@.take(i as int).push(short@[i as int]));
            i += 1;
        }
        assert(short@.take(short.len() as int) =~= short@);
        assert(slug@ =~= slug_of(short@));
        match find(&full, &slug, 0) {
            Some(at) => {
                let mut rest = to_text(&full, 0, at);
                let after = to_text(&full, at + slug.len(), full.len());
                rest.append(after.as_str());
                rest
            },
            None => full_path.to_owned(),
        }
    }

    /// The remainder of a request as it is handed to the link's destination:
    /// `path_remainder` without one `/` at its start.
    pub fn path_segment(full_path: &str, short_slug: &str) -> (rest: String)
        ensures
            rest@ == segment(full_path@, short_slug@),
    {
        let rest = Renderer::path_remainder(full_path, short_slug);
        let chars = to_chars(rest.as_str());
        if chars.len() > 0 && chars[0] == '/' {
            to_text(&chars, 1, chars.len())
        } else {
            rest
        }
    }

    /// The template that the destination `long` stands for.
    pub fn with_path(path: &str, long: &str) -> (template: String)
        ensures
            template@ == effective_template(path@, long@),
    {
        let chars = to_chars(long);
        let mut mark: Vec<char> = Vec::new();
        mark.push('{');
        mark.push('{');
        assert(mark@ =~= open_mark());
        let mut template = long.to_owned();
        if find(&chars, &mark, 0).is_none() && !path.is_empty() {
            if chars.len() > 0 && chars[chars.len() - 1] == '/' {
                template.append("{{path}}");
            } else {
                template.append("/{{path}}");
            }
        }
        template
    }

    /// The text that the destination `long` expands to for the remainder
    /// `path` and the query parameters at time `now`.
    pub fn expand_text_at(
        helpers: &HelperSet,
        path: &str,
        query_params: &QueryParams,
        long: &str,
        now: Timestamp,
    ) -> (out: Result<String, ExpansionError>)
        ensures
            agrees(out, expanded_text(helpers@, path@, query_params@, long@, now)),
    {
        let template = Renderer::with_path(path, long);
        match helpers.render_template_at(template.as_str(), path, now) {
            Ok(expanded) => Ok(merged_text(expanded.as_str(), query_params)),
            Err(e) => Err(e),
        }
    }

    /// Expands the destination `long` for the remainder `path` and the query
    /// parameters at time `now`.
    pub fn expand_link_at(
        &self,
        path: &str,
        query_params: &QueryParams,
        long: &str,
        now: Timestamp,
    ) -> (out: Result<String, ExpansionError>)
        ensures
            agrees(out, expansion(self.helpers@, path@, query_params@, long@, now)),
    {
        match Renderer::expand_text_at(&self.helpers, path, query_params, long, now) {
            Ok(text) => read_url(text.as_str()),
            Err(e) => Err(e),
        }
    }

    /// Expands the destination `long` for the remainder `path` and the query
    /// parameters at the time of the call. A destination that calls neither
    /// `now` nor `now_format` expands to what it expands to at any time.
    pub fn expand_link(&self, path: &str, query_params: QueryParams, long: &str) -> (out: Result<
        String,
        ExpansionError,
    >)
        ensures
            exists|now: Timestamp|
                agrees(out, expansion(self.helpers@, path@, query_params@, long@, now)),
            is_timeless(self.helpers@, effective_template(path@, long@)) ==> forall|
                now: Timestamp,
            |
                agrees(out, #[trigger] expansion(self.helpers@, path@, query_params@, long@, now)),
    {
        let now = Timestamp::now();
        let out = self.expand_link_at(path, &query_params, long, now);
        assert(agrees(out, expansion(self.helpers@, path@, query_params@, long@, now)));
        proof {
            if is_timeless(self.helpers@, effective_template(path@, long@)) {
                assert forall|t: Timestamp|
                    agrees(
                        out,
                        #[trigger] expansion(self.helpers@, path@, query_params@, long@, t),
                    ) by {
                    lemma_expansion_timeless(
                        self.helpers@,
                        path@,
                        query_params@,
                        long@,
                        now,
                        t,
                    );
                }
            }
        }
        out
    }

    /// Resolves a request at time `now`: `link` is what the store holds for
    /// the short code.
    pub fn resolve_redirect_at(
        &self,
        link: Option<&Link>,
        short: &str,
        full_path: &str,
        query_params: &QueryParams,
        now: Timestamp,
    ) -> (out: Result<Redirect, RedirectError>)
        ensures
            resolved(
                out,
                resolution(
                    self.helpers@,
                    destination(link),
                    short@,
                    full_path@,
                    query_params@,
                    now,
                ),
            ),
    {
        match link {
            None => Err(RedirectError::NotFound),
            Some(link) => {
                let path = Renderer::path_segment(full_path, short);
                match self.expand_link_at(path.as_str(), query_params, link.long.as_str(), now) {
                    Ok(location) => Ok(Redirect { location, status: PERMANENT_REDIRECT }),
                    Err(e) => Err(RedirectError::ExpansionFailed(e)),
                }
            },
        }
    }

    /// Answers a request at time `now`: with the destination, or with `/`
    /// and the status of what went wrong.
    pub fn get_at(
        &self,
        link: Option<&Link>,
        short: &str,
        full_path: &str,
        query_params: &QueryParams,
        now: Timestamp,
    ) -> (out: Redirect)
        ensures
            (out.location@, out.status) == reply(
                resolution(
                    self.helpers@,
                    destination(link),
                    short@,
                    full_path@,
                    query_params@,
                    now,
                ),
            ),
    {
        match self.resolve_redirect_at(link, short, full_path, query_params, now) {
            Ok(redirect) => redirect,
            Err(RedirectError::NotFound) => Redirect {
                location: "/".to_owned(),
                status: NOT_FOUND,
            },
            Err(RedirectError::ExpansionFailed(_)) => Redirect {
                location: "/".to_owned(),
                status: INTERNAL_SERVER_ERROR,
            },
        }
    }

    /// Resolves a request at the time of the call: `link` is what the store
    /// holds for the short code.
    pub fn resolve_redirect(
        &self,
        link: Option<&Link>,
        short: &str,
        full_path: &str,
        query_params: &QueryParams,
    ) -> (out: Result<Redirect, RedirectError>)
        ensures
            exists|now: Timestamp|
                resolved(
                    out,
                    resolution(
                        self.helpers@,
                        destination(link),
                        short@,
                        full_path@,
                        query_params@,
                        now,
                    ),
                ),
            link is None ==> out matches Err(RedirectError::NotFound),
            answers_alike(self.helpers@, destination(link), short@, full_path@) ==> forall|
                now: Timestamp,
            |
                resolved(
                    out,
                    #[trigger] resolution(
                        self.helpers@,
                        destination(link),
                        short@,
                        full_path@,
                        query_params@,
                        now,
                    ),
                ),
    {
        let now = Timestamp::now();
        let out = self.resolve_redirect_at(link, short, full_path, query_params, now);
        assert(resolved(
            out,
            resolution(
                self.helpers@,
                destination(link),
                short@,
                full_path@,
                query_params@,
                now,
            ),
        ));
        proof {
            if answers_alike(self.helpers@, destination(link), short@, full_path@) {
                assert forall|t: Timestamp|
                    resolved(
                        out,
                        #[trigger] resolution(
                            self.helpers@,
                            destination(link),
                            short@,
                            full_path@,
                            query_params@,
                            t,
                        ),
                    ) by {
                    lemma_resolution_timeless(
                        self.helpers@,
                        destination(link),
                        short@,
                        full_path@,
                        query_params@,
                        now,
                        t,
                    );
                }
            }
        }
        out
    }

    /// Answers a request at the time of the call.
    pub fn get(
        &self,
        link: Option<&Link>,
        short: &str,
        full_path: &str,
        query_params: QueryParams,
    ) -> (out: Redirect)
        ensures
            exists|now: Timestamp|
                (out.location@, out.status) == reply(
                    resolution(
                        self.helpers@,
                        destination(link),
                        short@,
                        full_path@,
                        query_params@,
                        now,
                    ),
                ),
            link is None ==> out.location@ == "/"@ && out.status == NOT_FOUND,
            answers_alike(self.helpers@, destination(link), short@, full_path@) ==> forall|
                now: Timestamp,
            |
                (out.location@, out.status) == reply(
                    #[trigger] resolution(
                        self.helpers@,
                        destination(link),
                        short@,
                        full_path@,
                        query_params@,
                        now,
                    ),
                ),
    {
        let now = Timestamp::now();
        let out = self.get_at(link, short, full_path, &query_params, now);
        assert((out.location@, out.status) == reply(
            resolution(
                self.helpers@,
                destination(link),
                short@,
                full_path@,
                query_params@,
                now,
            ),
        ));
        proof {
            if answers_alike(self.helpers@, destination(link), short@, full_path@) {
                assert forall|t: Timestamp|
                    (out.location@, out.status) == reply(
                        #[trigger] resolution(
                            self.helpers@,
                            destination(link),
                            short@,
                            full_path@,
                            query_params@,
                            t,
                        ),
                    ) by {
                    lemma_resolution_timeless(
                        self.helpers@,
                        destination(link),
                        short@,
                        full_path@,
                        query_params@,
                        now,
                        t,
                    );
                }
            }
        }
        out
    }
}

/// A destination that calls neither `now` nor `now_format` expands to the
/// same URL, or fails in the same way, whenever it is expanded.
pub proof fn lemma_expansion_timeless(
    helpers: Map<Seq<char>, HelperKind>,
    path: Seq<char>,
    pairs: Seq<(Seq<char>, Seq<char>)>,
    long: Seq<char>,
    t1: Timestamp,
    t2: Timestamp,
)
    requires
        is_timeless(helpers, effective_template(path, long)),
    ensures
        expanded_text(helpers, path, pairs, long, t1) == expanded_text(
            helpers,
            path,
            pairs,
            long,
            t2,
        ),
        expansion(helpers, path, pairs, long, t1) == expansion(helpers, path, pairs, long, t2),
{
    lemma_rendering_timeless(helpers, effective_template(path, long), path, t1, t2);
}

/// A request is answered alike at any time: no link is stored for it, or the
/// link's destination calls neither `now` nor `now_format` for it.
pub open spec fn answers_alike(
    helpers: Map<Seq<char>, HelperKind>,
    long: Option<Seq<char>>,
    short: Seq<char>,
    full_path: Seq<char>,
) -> bool {
    match long {
        Some(long) => is_timeless(
            helpers,
            effective_template(segment(full_path, short), long),
        ),
        None => true,
    }
}

/// A request that is answered alike at any time resolves to the same
/// destination, or fails in the same way, whenever it is resolved.
pub proof fn lemma_resolution_timeless(
    helpers: Map<Seq<char>, HelperKind>,
    long: Option<Seq<char>>,
    short: Seq<char>,
    full_path: Seq<char>,
    pairs: Seq<(Seq<char>, Seq<char>)>,
    t1: Timestamp,
    t2: Timestamp,
)
    requires
        answers_alike(helpers, long, short, full_path),
    ensures
        resolution(helpers, long, short, full_path, pairs, t1) == resolution(
            helpers,
            long,
            short,
            full_path,
            pairs,
            t2,
        ),
{
    match long {
        Some(long) => {
            lemma_expansion_timeless(helpers, segment(full_path, short), pairs, long, t1, t2);
        },
        None => {},
    }
}

/// A text without `{{` is a template that renders to the text itself:
/// nothing in it is encoded or changed.
pub proof fn lemma_literal_renders(
    helpers: Map<Seq<char>, HelperKind>,
    text: Seq<char>,
    path: Seq<char>,
    now: Timestamp,
)
    requires
        !contains_text(text, open_mark()),
    ensures
        parsed(text, helpers) matches Ok(nodes) && nodes.len() <= 1,
        rendering(helpers, text, path, now) == Ok::<Seq<char>, ExpansionError>(text),
        is_timeless(helpers, text),
{
    if text.len() == 0 {
        let nodes = Seq::<NodeModel>::empty();
        assert(parsed(text, helpers) == Ok::<Seq<NodeModel>, ExpansionError>(nodes));
        assert(rendered(nodes, path, now)->Ok_0 =~= text);
    } else {
        let node = NodeModel::Text(text.subrange(0, text.len() as int));
        let nodes = seq![node];
        assert(parsed(text, helpers) == Ok::<Seq<NodeModel>, ExpansionError>(nodes));
        assert(nodes.drop_last() =~= Seq::<NodeModel>::empty());
        assert(nodes.last() == node);
        assert(rendered(nodes.drop_last(), path, now) == Ok::<Seq<char>, ExpansionError>(
            Seq::<char>::empty(),
        ));
        assert(text.subrange(0, text.len() as int) =~= text);
        assert(rendered_node(node, path, now) == Ok::<Seq<char>, ExpansionError>(text));
        assert(Seq::<char>::empty() + text =~= text);
        assert(rendered(nodes, path, now) == Ok::<Seq<char>, ExpansionError>(text));
        assert(!nodes_read_clock(nodes.drop_last()));
        assert(!node_reads_clock(node));
    }
}

/// A destination without `{{`, for a request that adds nothing to the short
/// code, expands to the destination itself with the query parameters merged
/// in.
pub proof fn lemma_literal_alone(
    helpers: Map<Seq<char>, HelperKind>,
    pairs: Seq<(Seq<char>, Seq<char>)>,
    long: Seq<char>,
    now: Timestamp,
)
    requires
        !contains_text(long, open_mark()),
    ensures
        expanded_text(helpers, Seq::empty(), pairs, long, now) == Ok::<
            Seq<char>,
            ExpansionError,
        >(merged(long, pairs)),
{
    lemma_literal_renders(helpers, long, Seq::empty(), now);
}

/// The destination `long` with the remainder `path` as one more segment:
/// with one `/` between the two.
pub open spec fn joined(long: Seq<char>, path: Seq<char>) -> Seq<char> {
    if long.len() > 0 && long.last() == '/' {
        long + path
    } else {
        long + seq!['/'] + path
    }
}

/// The tag `path` shows the value of the name `path`, where no helper has
/// that name.
#[verifier::rlimit(40)]
proof fn lemma_path_tag(helpers: Map<Seq<char>, HelperKind>, content: Seq<char>)
    requires
        content == "path"@,
        !helpers.contains_key("path"@),
    ensures
        tag(content, helpers) == Ok::<TagModel, ExpansionError>(
            TagModel::Show(ExprModel::Variable(content)),
        ),
{
    reveal_strlit("path");
    reveal_strlit("#if");
    reveal_strlit("else");
    reveal_strlit("/if");
    reveal_strlit("true");
    reveal_strlit("false");
    assert(content.len() == 4);
    assert(content[0] == 'p' && content[1] == 'a' && content[2] == 't' && content[3] == 'h');
    assert(word_end(content, 4) == 4);
    assert(word_end(content, 3) == 4);
    assert(word_end(content, 2) == 4);
    assert(word_end(content, 1) == 4);
    assert(word_end(content, 0) == 4);
    assert(tokens(content, 4) == Some(Seq::<TokenModel>::empty()));
    assert(content.subrange(0, 4) =~= content);
    let toks = seq![TokenModel::Word(content)];
    assert(toks + Seq::<TokenModel>::empty() =~= toks);
    assert(tokens(content, 0) == Some(toks));
    assert(toks[0] == TokenModel::Word(content));
    assert("#if"@.len() == 3);
    assert("else"@[0] == 'e');
    assert("/if"@.len() == 3);
    assert("true"@[0] == 't' && "true"@[1] == 'r');
    assert("false"@.len() == 5);
    assert(atom(content) == ExprModel::Variable(content));
    assert(expression(toks, 0, helpers) == Ok::<ExprModel, ExpansionError>(
        ExprModel::Variable(content),
    ));
}

/// In a text without `{{` to which, after a `/`, the tag `{{path}}` was
/// appended, that tag is the first to open, and it closes after its name.
proof fn lemma_appended_tag(long: Seq<char>, base: Seq<char>, t: Seq<char>)
    requires
        !contains_text(long, open_mark()),
        base == long || base == long + seq!['/'],
        base.len() > 0,
        base.last() == '/',
        t == base + seq!['{', '{', 'p', 'a', 't', 'h', '}', '}'],
    ensures
        first_occurrence(t, open_mark(), 0) == Some(base.len() as int),
        first_occurrence(t, close_mark(), base.len() as int + 2) == Some(base.len() as int + 6),
{
    let n = base.len() as int;
    lemma_first_occurrence(long, open_mark(), 0);
    assert(occurs_at(t, open_mark(), n)) by {
        assert(t.subrange(n, n + 2) =~= open_mark());
    }
    assert forall|j: int| 0 <= j < n implies !occurs_at(t, open_mark(), j) by {
        if occurs_at(t, open_mark(), j) {
            assert(t.subrange(j, j + 2)[0] == '{');
            assert(t.subrange(j, j + 2)[1] == '{');
            if j + 2 <= long.len() {
                assert(long.subrange(j, j + 2) =~= open_mark());
                assert(occurs_at(long, open_mark(), j));
            } else if j + 1 == n {
                assert(t[j] == '/');
            } else {
                assert(t[j + 1] == '/');
            }
        }
    }
    lemma_first_occurrence_is(t, open_mark(), 0, n);
    assert(occurs_at(t, close_mark(), n + 6)) by {
        assert(t.subrange(n + 6, n + 8) =~= close_mark());
    }
    assert forall|j: int| n + 2 <= j < n + 6 implies !occurs_at(t, close_mark(), j) by {
        if occurs_at(t, close_mark(), j) {
            assert(t.subrange(j, j + 2)[0] == '}');
        }
    }
    lemma_first_occurrence_is(t, close_mark(), n + 2, n + 6);
}

/// A destination without `{{`, for a request that adds `path` to the short
/// code, expands to the destination with `path` as one more segment, and the
/// query parameters merged in: the remainder is never dropped, and nothing
/// of the destination is encoded or changed.
#[verifier::rlimit(40)]
pub proof fn lemma_literal_appends(
    helpers: Map<Seq<char>, HelperKind>,
    path: Seq<char>,
    pairs: Seq<(Seq<char>, Seq<char>)>,
    long: Seq<char>,
    now: Timestamp,
)
    requires
        !contains_text(long, open_mark()),
        path.len() > 0,
        !helpers.contains_key("path"@),
    ensures
        rendering(helpers, effective_template(path, long), path, now) == Ok::<
            Seq<char>,
            ExpansionError,
        >(joined(long, path)),
        expanded_text(helpers, path, pairs, long, now) == Ok::<Seq<char>, ExpansionError>(
            merged(joined(long, path), pairs),
        ),
        is_timeless(helpers, effective_template(path, long)),
{
    reveal_strlit("{{path}}");
    reveal_strlit("/{{path}}");
    reveal_strlit("path");
    let slashed = long.len() > 0 && long.last() == '/';
    let base = if slashed {
        long
    } else {
        long + seq!['/']
    };
    let t = effective_template(path, long);
    let n = base.len() as int;
    let content = t.subrange(n + 2, n + 6);
    assert(t =~= base + seq!['{', '{', 'p', 'a', 't', 'h', '}', '}']);
    assert(t.len() == n + 8);
    assert(n > 0 && base[n - 1] == '/');
    assert(content =~= "path"@);
    lemma_appended_tag(long, base, t);
    lemma_path_tag(helpers, content);
    // The template is the destination as text, and then the name.
    let show = NodeModel::Show(ExprModel::Variable(content));
    let text = NodeModel::Text(base);
    let nodes = seq![text, show];
    assert(t.subrange(0, n) =~= base);
    assert(lead(t, 0, n) == seq![text]);
    assert(block(t, n + 8, false, helpers) == Ok::<(Seq<NodeModel>, Stop, int), ExpansionError>(
        (Seq::<NodeModel>::empty(), Stop::End, n + 8),
    ));
    assert(seq![text].push(show) + Seq::<NodeModel>::empty() =~= nodes);
    assert(block(t, 0, false, helpers) == Ok::<(Seq<NodeModel>, Stop, int), ExpansionError>(
        (nodes, Stop::End, n + 8),
    ));
    assert(parsed(t, helpers) == Ok::<Seq<NodeModel>, ExpansionError>(nodes));
    // It renders to the destination and then the remainder.
    let first = nodes.drop_last();
    assert(first =~= seq![text]);
    assert(first.drop_last() =~= Seq::<NodeModel>::empty());
    assert(first.last() == text);
    assert(nodes.last() == show);
    assert(rendered(first.drop_last(), path, now) == Ok::<Seq<char>, ExpansionError>(
        Seq::<char>::empty(),
    ));
    assert(rendered_node(text, path, now) == Ok::<Seq<char>, ExpansionError>(base));
    assert(Seq::<char>::empty() + base =~= base);
    assert(rendered(first, path, now) == Ok::<Seq<char>, ExpansionError>(base));
    assert(named(content, path) == path);
    assert(rendered_node(show, path, now) == Ok::<Seq<char>, ExpansionError>(path));
    assert(base + path =~= joined(long, path));
    assert(rendered(nodes, path, now) == Ok::<Seq<char>, ExpansionError>(joined(long, path)));
    assert(!nodes_read_clock(first.drop_last()));
    assert(!node_reads_clock(text));
    assert(!nodes_read_clock(first));
    assert(!node_reads_clock(show));
    assert(!nodes_read_clock(nodes));
}

/// With the standard helpers, a destination without `{{` expands to itself
/// with the remainder as one more segment, where there is a remainder, and
/// the query parameters merged in.
pub proof fn lemma_literal_expands(
    path: Seq<char>,
    pairs: Seq<(Seq<char>, Seq<char>)>,
    long: Seq<char>,
    now: Timestamp,
)
    requires
        !contains_text(long, open_mark()),
    ensures
        expanded_text(standard_helpers(), path, pairs, long, now) == Ok::<
            Seq<char>,
            ExpansionError,
        >(
            merged(
                if path.len() > 0 {
                    joined(long, path)
                } else {
                    long
                },
                pairs,
            ),
        ),
{
    if path.len() > 0 {
        lemma_path_is_no_helper();
        lemma_literal_appends(standard_helpers(), path, pairs, long, now);
    } else {
        assert(path =~= Seq::<char>::empty());
        lemma_literal_alone(standard_helpers(), pairs, long, now);
    }
}

} // verus!
