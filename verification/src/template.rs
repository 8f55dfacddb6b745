//! Destination patterns as templates: literal text, tags between `{{` and
//! `}}` that show an expression, and `{{#if ..}} .. {{else}} .. {{/if}}`
//! blocks that choose between two parts. The notation is a subset of that of
//! Handlebars; values are shown as they are, without HTML escaping.

use crate::helpers::{ExpansionError, HelperKind, HelperSet};
use crate::syntax::{
    expression, lex, parse_expression, tokens, Expr, ExprModel, Token, TokenModel,
};
use crate::text::{find, first_occurrence, lemma_first_occurrence, push_range, same_chars, to_chars};
use vstd::prelude::*;

verus! {

/// What a tag says, as a mathematical value.
pub enum TagModel {
    Show(ExprModel),
    If(ExprModel),
    Else,
    EndIf,
}

/// What a tag says.
#[derive(Debug)]
pub enum Tag {
    /// The value of the expression stands in the tag's place.
    Show(Expr),
    /// `#if`: a block starts, taken where the expression holds.
    If(Expr),
    /// `else`: the other part of the block starts.
    Else,
    /// `/if`: the block ends.
    EndIf,
}

impl View for Tag {
    type V = TagModel;

    open spec fn view(&self) -> TagModel {
        match self {
            Tag::Show(expr) => TagModel::Show(expr@),
            Tag::If(expr) => TagModel::If(expr@),
            Tag::Else => TagModel::Else,
            Tag::EndIf => TagModel::EndIf,
        }
    }
}

/// A part of a template, as a mathematical value.
pub enum NodeModel {
    Text(Seq<char>),
    Show(ExprModel),
    Branch(ExprModel, Seq<NodeModel>, Seq<NodeModel>),
}

/// A part of a template.
#[derive(Debug)]
pub enum Node {
    /// Text that stands as it is.
    Text(Vec<char>),
    /// An expression whose value is shown.
    Show(Expr),
    /// A condition, the parts taken where it holds, and the parts taken
    /// where it does not.
    Branch(Expr, Vec<Node>, Vec<Node>),
}

impl View for Node {
    type V = NodeModel;

    open spec fn view(&self) -> NodeModel
        decreases self,
    {
        match self {
            Node::Text(text) => NodeModel::Text(text@),
            Node::Show(expr) => NodeModel::Show(expr@),
            Node::Branch(condition, taken, other) => NodeModel::Branch(
                condition@,
                Seq::new(
                    taken.len() as nat,
                    |i: int|
                        if 0 <= i < taken.len() {
                            taken[i]@
                        } else {
                            NodeModel::Text(Seq::empty())
                        },
                ),
                Seq::new(
                    other.len() as nat,
                    |i: int|
                        if 0 <= i < other.len() {
                            other[i]@
                        } else {
                            NodeModel::Text(Seq::empty())
                        },
                ),
            ),
        }
    }
}

/// The views of a sequence of nodes.
pub open spec fn node_models(nodes: Seq<Node>) -> Seq<NodeModel> {
    Seq::new(nodes.len(), |i: int| nodes[i]@)
}

/// How a run of nodes ended: with the text, or at a tag that belongs to the
/// block around it.
#[derive(Clone, Copy, Debug, PartialEq, Eq, Structural)]
pub enum Stop {
    End,
    Else,
    EndIf,
}

/// The tag that shows what `expr` is, where it is an expression.
pub open spec fn shown_tag(expr: Result<ExprModel, ExpansionError>) -> Result<
    TagModel,
    ExpansionError,
> {
    match expr {
        Ok(expr) => Ok(TagModel::Show(expr)),
        Err(e) => Err(e),
    }
}

/// What the tag with text `content` says. A word that starts with `#` opens
/// a block, and `#if` is the one block there is; a word that starts with `/`
/// closes one.
pub open spec fn tag(content: Seq<char>, helpers: Map<Seq<char>, HelperKind>) -> Result<
    TagModel,
    ExpansionError,
> {
    match tokens(content, 0) {
        None => Err(ExpansionError::Syntax),
        Some(toks) => if toks.len() == 0 {
            Err(ExpansionError::Syntax)
        } else {
            match toks[0] {
                TokenModel::Word(word) => if word == "#if"@ {
                    match expression(toks, 1, helpers) {
                        Ok(condition) => Ok(TagModel::If(condition)),
                        Err(e) => Err(e),
                    }
                } else if word == "else"@ {
                    if toks.len() == 1 {
                        Ok(TagModel::Else)
                    } else {
                        Err(ExpansionError::Syntax)
                    }
                } else if word == "/if"@ {
                    if toks.len() == 1 {
                        Ok(TagModel::EndIf)
                    } else {
                        Err(ExpansionError::Syntax)
                    }
                } else if word.len() > 0 && word[0] == '#' {
                    Err(ExpansionError::UnknownHelper)
                } else if word.len() > 0 && word[0] == '/' {
                    Err(ExpansionError::Syntax)
                } else {
                    shown_tag(expression(toks, 0, helpers))
                },
                _ => shown_tag(expression(toks, 0, helpers)),
            }
        },
    }
}

/// `{{`, which opens a tag.
pub open spec fn open_mark() -> Seq<char> {
    seq!['{', '{']
}

/// `}}`, which closes a tag.
pub open spec fn close_mark() -> Seq<char> {
    seq!['}', '}']
}

/// The text between `from` and the tag that opens at `open`, as nodes.
pub open spec fn lead(s: Seq<char>, from: int, open: int) -> Seq<NodeModel> {
    if open > from {
        seq![NodeModel::Text(s.subrange(from, open))]
    } else {
        Seq::empty()
    }
}

/// A run of nodes that ends with the text: an error inside a block.
pub open spec fn finished(nested: bool, nodes: Seq<NodeModel>, at: int) -> Result<
    (Seq<NodeModel>, Stop, int),
    ExpansionError,
> {
    if nested {
        Err(ExpansionError::Syntax)
    } else {
        Ok((nodes, Stop::End, at))
    }
}

/// A run of nodes that ends at a tag of the block around it: an error
/// outside a block.
pub open spec fn stopped(nested: bool, nodes: Seq<NodeModel>, stop: Stop, at: int) -> Result<
    (Seq<NodeModel>, Stop, int),
    ExpansionError,
> {
    if nested {
        Ok((nodes, stop, at))
    } else {
        Err(ExpansionError::Syntax)
    }
}

/// `head`, and then the run `rest`.
pub open spec fn followed(
    head: Seq<NodeModel>,
    rest: Result<(Seq<NodeModel>, Stop, int), ExpansionError>,
) -> Result<(Seq<NodeModel>, Stop, int), ExpansionError> {
    match rest {
        Ok((nodes, stop, end)) => Ok((head + nodes, stop, end)),
        Err(e) => Err(e),
    }
}

/// The nodes of `s` from `from` on, how the run ends, and the position after
/// it. Outside a block the run ends with the text; inside one (`nested`) it
/// ends at the first `else` or `/if` that belongs to the block.
/// (Positions only move forward: the tests on `p` and `q` only show that this
/// definition is well founded.)
pub open spec fn block(
    s: Seq<char>,
    from: int,
    nested: bool,
    helpers: Map<Seq<char>, HelperKind>,
) -> Result<(Seq<NodeModel>, Stop, int), ExpansionError>
    decreases s.len() - from,
{
    if from < 0 {
        Err(ExpansionError::Syntax)
    } else if from >= s.len() {
        finished(nested, Seq::empty(), from)
    } else {
        match first_occurrence(s, open_mark(), from) {
            None => finished(nested, seq![NodeModel::Text(s.subrange(from, s.len() as int))], s.len() as int),
            Some(open) => match first_occurrence(s, close_mark(), open + 2) {
                None => Err(ExpansionError::Syntax),
                Some(close) => {
                    proof {
                        lemma_first_occurrence(s, open_mark(), from);
                        lemma_first_occurrence(s, close_mark(), open + 2);
                    }
                    match tag(s.subrange(open + 2, close), helpers) {
                        Err(e) => Err(e),
                        Ok(TagModel::Else) => stopped(
                            nested,
                            lead(s, from, open),
                            Stop::Else,
                            close + 2,
                        ),
                        Ok(TagModel::EndIf) => stopped(
                            nested,
                            lead(s, from, open),
                            Stop::EndIf,
                            close + 2,
                        ),
                        Ok(TagModel::Show(expr)) => followed(
                            lead(s, from, open).push(NodeModel::Show(expr)),
                            block(s, close + 2, nested, helpers),
                        ),
                        Ok(TagModel::If(condition)) => match block(s, close + 2, true, helpers) {
                            Err(e) => Err(e),
                            Ok((taken, stop, p)) => if p <= from || p > s.len() {
                                Err(ExpansionError::Syntax)
                            } else {
                                match stop {
                                    Stop::End => Err(ExpansionError::Syntax),
                                    Stop::EndIf => followed(
                                        lead(s, from, open).push(
                                            NodeModel::Branch(condition, taken, Seq::empty()),
                                        ),
                                        block(s, p, nested, helpers),
                                    ),
                                    Stop::Else => match block(s, p, true, helpers) {
                                        Err(e) => Err(e),
                                        Ok((other, stop, q)) => if q <= from || q > s.len() {
                                            Err(ExpansionError::Syntax)
                                        } else if stop == Stop::EndIf {
                                            followed(
                                                lead(s, from, open).push(
                                                    NodeModel::Branch(condition, taken, other),
                                                ),
                                                block(s, q, nested, helpers),
                                            )
                                        } else {
                                            Err(ExpansionError::Syntax)
                                        },
                                    },
                                }
                            },
                        },
                    }
                },
            },
        }
    }
}

/// A run of nodes ends within the text: outside a block at its end, inside
/// one after the tag that closes the run. The tests on positions in the
/// definition never fail.
pub proof fn lemma_block_advances(
    s: Seq<char>,
    from: int,
    nested: bool,
    helpers: Map<Seq<char>, HelperKind>,
)
    requires
        0 <= from <= s.len(),
    ensures
        block(s, from, nested, helpers) matches Ok((_, stop, end)) ==> {
            &&& from <= end <= s.len()
            &&& nested ==> from < end && stop != Stop::End
            &&& !nested ==> end == s.len() && stop == Stop::End
        },
    decreases s.len() - from,
{
    if from < s.len() {
        lemma_first_occurrence(s, open_mark(), from);
        match first_occurrence(s, open_mark(), from) {
            None => {},
            Some(open) => {
                lemma_first_occurrence(s, close_mark(), open + 2);
                match first_occurrence(s, close_mark(), open + 2) {
                    None => {},
                    Some(close) => {
                        lemma_block_advances(s, close + 2, nested, helpers);
                        lemma_block_advances(s, close + 2, true, helpers);
                        match block(s, close + 2, true, helpers) {
                            Ok((_, _, p)) => {
                                lemma_block_advances(s, p, nested, helpers);
                                lemma_block_advances(s, p, true, helpers);
                                match block(s, p, true, helpers) {
                                    Ok((_, _, q)) => {
                                        lemma_block_advances(s, q, nested, helpers);
                                    },
                                    Err(_) => {},
                                }
                            },
                            Err(_) => {},
                        }
                    },
                }
            },
        }
    }
}

/// The nodes of the template `text`, or why it is none.
pub open spec fn parsed(text: Seq<char>, helpers: Map<Seq<char>, HelperKind>) -> Result<
    Seq<NodeModel>,
    ExpansionError,
> {
    match block(text, 0, false, helpers) {
        Ok((nodes, _, _)) => Ok(nodes),
        Err(e) => Err(e),
    }
}

/// Reads what the tag with text `content` says.
pub fn parse_tag(content: &Vec<char>, helpers: &HelperSet) -> (out: Result<Tag, ExpansionError>)
    ensures
        match out {
            Ok(t) => tag(content@, helpers@) == Ok::<TagModel, ExpansionError>(t@),
            Err(e) => tag(content@, helpers@) == Err::<TagModel, ExpansionError>(e),
        },
{
    let toks = match lex(content) {
        Some(toks) => toks,
        None => {
            return Err(ExpansionError::Syntax);
        },
    };
    if toks.len() == 0 {
        return Err(ExpansionError::Syntax);
    }
    match &toks[0] {
        Token::Word(word) => {
            let opens = to_chars("#if");
            let turns = to_chars("else");
            let closes = to_chars("/if");
            if same_chars(word, &opens) {
                match parse_expression(&toks, 1, helpers) {
                    Ok(condition) => Ok(Tag::If(condition)),
                    Err(e) => Err(e),
                }
            } else if same_chars(word, &turns) {
                if toks.len() == 1 {
                    Ok(Tag::Else)
                } else {
                    Err(ExpansionError::Syntax)
                }
            } else if same_chars(word, &closes) {
                if toks.len() == 1 {
                    Ok(Tag::EndIf)
                } else {
                    Err(ExpansionError::Syntax)
                }
            } else if word.len() > 0 && word[0] == '#' {
                Err(ExpansionError::UnknownHelper)
            } else if word.len() > 0 && word[0] == '/' {
                Err(ExpansionError::Syntax)
            } else {
                match parse_expression(&toks, 0, helpers) {
                    Ok(expr) => Ok(Tag::Show(expr)),
                    Err(e) => Err(e),
                }
            }
        },
        _ => match parse_expression(&toks, 0, helpers) {
            Ok(expr) => Ok(Tag::Show(expr)),
            Err(e) => Err(e),
        },
    }
}

/// Runs of nodes can be joined at any point.
proof fn lemma_followed(
    first: Seq<NodeModel>,
    second: Seq<NodeModel>,
    rest: Result<(Seq<NodeModel>, Stop, int), ExpansionError>,
)
    ensures
        followed(first, followed(second, rest)) == followed(first + second, rest),
{
    match rest {
        Ok((nodes, _, _)) => {
            assert(first + (second + nodes) =~= (first + second) + nodes);
        },
        Err(_) => {},
    }
}

/// The branch on `condition` between `taken` and `other`.
fn make_branch(condition: Expr, taken: Vec<Node>, other: Vec<Node>) -> (node: Node)
    ensures
        node@ == NodeModel::Branch(condition@, node_models(taken@), node_models(other@)),
{
    let ghost first = node_models(taken@);
    let ghost second = node_models(other@);
    let node = Node::Branch(condition, taken, other);
    assert(node@->Branch_1 =~= first);
    assert(node@->Branch_2 =~= second);
    node
}

/// Reads the nodes of `s` from `from` on: up to the end of the text or,
/// where `nested`, up to the `else` or `/if` of the block around them.
pub(crate) fn parse_block(s: &Vec<char>, from: usize, nested: bool, helpers: &HelperSet) -> (out: Result<
    (Vec<Node>, Stop, usize),
    ExpansionError,
>)
    requires
        from <= s.len(),
    ensures
        match out {
            Ok((nodes, stop, end)) => {
                &&& block(s@, from as int, nested, helpers@) == Ok::<
                    (Seq<NodeModel>, Stop, int),
                    ExpansionError,
                >((node_models(nodes@), stop, end as int))
                &&& from <= end <= s.len()
                &&& nested ==> from < end && stop != Stop::End
            },
            Err(e) => block(s@, from as int, nested, helpers@) == Err::<
                (Seq<NodeModel>, Stop, int),
                ExpansionError,
            >(e),
        },
    decreases s.len() - from,
{
    let mut open_text: Vec<char> = Vec::new();
    open_text.push('{');
    open_text.push('{');
    let mut close_text: Vec<char> = Vec::new();
    close_text.push('}');
    close_text.push('}');
    assert(open_text@ =~= open_mark());
    assert(close_text@ =~= close_mark());
    let mut nodes: Vec<Node> = Vec::new();
    let mut i: usize = from;
    assert(node_models(nodes@) =~= Seq::<NodeModel>::empty());
    proof {
        lemma_joined(Seq::empty(), block(s@, from as int, nested, helpers@));
    }
    loop
        invariant
            from <= i <= s.len(),
            open_text@ == open_mark(),
            close_text@ == close_mark(),
            block(s@, from as int, nested, helpers@) == followed(
                node_models(nodes@),
                block(s@, i as int, nested, helpers@),
            ),
        decreases s.len() - i,
    {
        let ghost before = node_models(nodes@);
        if i >= s.len() {
            if nested {
                return Err(ExpansionError::Syntax);
            }
            assert(before + Seq::<NodeModel>::empty() =~= before);
            return Ok((nodes, Stop::End, i));
        }
        let open = match find(s, &open_text, i) {
            Some(open) => open,
            None => {
                if nested {
                    return Err(ExpansionError::Syntax);
                }
                let mut rest: Vec<char> = Vec::new();
                push_range(&mut rest, s, i, s.len());
                assert(rest@ =~= s@.subrange(i as int, s.len() as int));
                nodes.push(Node::Text(rest));
                assert(node_models(nodes@) =~= before + seq![
                    NodeModel::Text(s@.subrange(i as int, s.len() as int)),
                ]);
                return Ok((nodes, Stop::End, s.len()));
            },
        };
        let close = match find(s, &close_text, open + 2) {
            Some(close) => close,
            None => {
                return Err(ExpansionError::Syntax);
            },
        };
        let mut content: Vec<char> = Vec::new();
        push_range(&mut content, s, open + 2, close);
        assert(content@ =~= s@.subrange(open + 2, close as int));
        let tag = match parse_tag(&content, helpers) {
            Ok(tag) => tag,
            Err(e) => {
                return Err(e);
            },
        };
        if open > i {
            let mut text: Vec<char> = Vec::new();
            push_range(&mut text, s, i, open);
            assert(text@ =~= s@.subrange(i as int, open as int));
            nodes.push(Node::Text(text));
        }
        let ghost led = before + lead(s@, i as int, open as int);
        assert(node_models(nodes@) =~= led);
        match tag {
            Tag::Else => {
                if !nested {
                    return Err(ExpansionError::Syntax);
                }
                return Ok((nodes, Stop::Else, close + 2));
            },
            Tag::EndIf => {
                if !nested {
                    return Err(ExpansionError::Syntax);
                }
                return Ok((nodes, Stop::EndIf, close + 2));
            },
            Tag::Show(expr) => {
                let ghost node = NodeModel::Show(expr@);
                nodes.push(Node::Show(expr));
                proof {
                    assert(node_models(nodes@) =~= before + lead(s@, i as int, open as int).push(
                        node,
                    ));
                    lemma_followed(
                        before,
                        lead(s@, i as int, open as int).push(node),
                        block(s@, close + 2, nested, helpers@),
                    );
                }
                i = close + 2;
            },
            Tag::If(condition) => {
                let (taken, stop, p) = match parse_block(s, close + 2, true, helpers) {
                    Ok(run) => run,
                    Err(e) => {
                        return Err(e);
                    },
                };
                match stop {
                    Stop::End => {
                        return Err(ExpansionError::Syntax);
                    },
                    Stop::EndIf => {
                        let ghost node = NodeModel::Branch(
                            condition@,
                            node_models(taken@),
                            Seq::empty(),
                        );
                        let other: Vec<Node> = Vec::new();
                        assert(node_models(other@) =~= Seq::<NodeModel>::empty());
                        nodes.push(make_branch(condition, taken, other));
                        proof {
                            assert(node_models(nodes@) =~= before + lead(
                                s@,
                                i as int,
                                open as int,
                            ).push(node));
                            lemma_followed(
                                before,
                                lead(s@, i as int, open as int).push(node),
                                block(s@, p as int, nested, helpers@),
                            );
                        }
                        i = p;
                    },
                    Stop::Else => {
                        let (other, stop, q) = match parse_block(s, p, true, helpers) {
                            Ok(run) => run,
                            Err(e) => {
                                return Err(e);
                            },
                        };
                        if stop != Stop::EndIf {
                            return Err(ExpansionError::Syntax);
                        }
                        let ghost node = NodeModel::Branch(
                            condition@,
                            node_models(taken@),
                            node_models(other@),
                        );
                        nodes.push(make_branch(condition, taken, other));
                        proof {
                            assert(node_models(nodes@) =~= before + lead(
                                s@,
                                i as int,
                                open as int,
                            ).push(node));
                            lemma_followed(
                                before,
                                lead(s@, i as int, open as int).push(node),
                                block(s@, q as int, nested, helpers@),
                            );
                        }
                        i = q;
                    },
                }
            },
        }
    }
}

/// A run after nothing is the run itself.
proof fn lemma_joined(
    nothing: Seq<NodeModel>,
    rest: Result<(Seq<NodeModel>, Stop, int), ExpansionError>,
)
    requires
        nothing.len() == 0,
    ensures
        followed(nothing, rest) == rest,
{
    match rest {
        Ok((nodes, _, _)) => {
            assert(nothing + nodes =~= nodes);
        },
        Err(_) => {},
    }
}

/// A template: a destination pattern, read once and ready to be rendered.
#[derive(Debug)]
pub struct Template {
    pub nodes: Vec<Node>,
}

impl View for Template {
    type V = Seq<NodeModel>;

    open spec fn view(&self) -> Seq<NodeModel> {
        node_models(self.nodes@)
    }
}

impl Template {
    /// Reads `text` as a template whose helpers are those of `helpers`.
    pub fn parse(text: &str, helpers: &HelperSet) -> (out: Result<Template, ExpansionError>)
        ensures
            match out {
                Ok(template) => parsed(text@, helpers@) == Ok::<Seq<NodeModel>, ExpansionError>(
                    template@,
                ),
                Err(e) => parsed(text@, helpers@) == Err::<Seq<NodeModel>, ExpansionError>(e),
            },
    {
        let chars = to_chars(text);
        match parse_block(&chars, 0, false, helpers) {
            Ok((nodes, _, _)) => Ok(Template { nodes }),
            Err(e) => Err(e),
        }
    }
}

} // verus!
