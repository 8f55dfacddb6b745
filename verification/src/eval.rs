//! What a template renders to for a request.
//!
//! A template is rendered against one named value, `path`, and the time of
//! the call. Any other name stands for the empty text.

use crate::clock::Timestamp;
use crate::helpers::{
    applied, apply, value_models, ExpansionError, HelperKind, HelperSet, Value, ValueModel,
};
use crate::syntax::{Expr, ExprModel};
use crate::template::{node_models, parsed, Node, NodeModel, Template};
use crate::text::{same_chars, to_chars, to_text};
use vstd::prelude::*;
use vstd::string::*;

verus! {

/// What the name `name` stands for where the request's remainder is `path`.
pub open spec fn named(name: Seq<char>, path: Seq<char>) -> Seq<char> {
    if name == "path"@ {
        path
    } else {
        Seq::empty()
    }
}

/// The value of `expr` where the remainder is `path` and the time is `now`.
pub open spec fn value(expr: ExprModel, path: Seq<char>, now: Timestamp) -> Result<
    ValueModel,
    ExpansionError,
>
    decreases expr,
{
    match expr {
        ExprModel::Literal(text) => Ok(ValueModel::Text(text)),
        ExprModel::Flag(flag) => Ok(ValueModel::Flag(flag)),
        ExprModel::Variable(name) => Ok(ValueModel::Text(named(name, path))),
        ExprModel::Call(kind, args) => match values(args, path, now) {
            Ok(args) => applied(kind, args, now),
            Err(e) => Err(e),
        },
    }
}

/// The values of `exprs`, from the first on, or the first error among them.
pub open spec fn values(exprs: Seq<ExprModel>, path: Seq<char>, now: Timestamp) -> Result<
    Seq<ValueModel>,
    ExpansionError,
>
    decreases exprs,
{
    if exprs.len() == 0 {
        Ok(Seq::empty())
    } else {
        match values(exprs.drop_last(), path, now) {
            Ok(head) => match value(exprs.last(), path, now) {
                Ok(last) => Ok(head.push(last)),
                Err(e) => Err(e),
            },
            Err(e) => Err(e),
        }
    }
}

/// The text that stands for a value in the output.
pub open spec fn shown(v: ValueModel) -> Seq<char> {
    match v {
        ValueModel::Text(text) => text,
        ValueModel::Flag(true) => "true"@,
        ValueModel::Flag(false) => "false"@,
    }
}

/// Whether a condition with value `v` holds: a text that is not empty, or
/// the flag `true`.
pub open spec fn holds(v: ValueModel) -> bool {
    match v {
        ValueModel::Text(text) => text.len() > 0,
        ValueModel::Flag(flag) => flag,
    }
}

/// What `node` renders to.
pub open spec fn rendered_node(node: NodeModel, path: Seq<char>, now: Timestamp) -> Result<
    Seq<char>,
    ExpansionError,
>
    decreases node,
{
    match node {
        NodeModel::Text(text) => Ok(text),
        NodeModel::Show(expr) => match value(expr, path, now) {
            Ok(v) => Ok(shown(v)),
            Err(e) => Err(e),
        },
        NodeModel::Branch(condition, taken, other) => match value(condition, path, now) {
            Ok(v) => if holds(v) {
                rendered(taken, path, now)
            } else {
                rendered(other, path, now)
            },
            Err(e) => Err(e),
        },
    }
}

/// What `nodes` render to: the texts of the nodes in order, or the first
/// error among them.
pub open spec fn rendered(nodes: Seq<NodeModel>, path: Seq<char>, now: Timestamp) -> Result<
    Seq<char>,
    ExpansionError,
>
    decreases nodes,
{
    if nodes.len() == 0 {
        Ok(Seq::empty())
    } else {
        match rendered(nodes.drop_last(), path, now) {
            Ok(head) => match rendered_node(nodes.last(), path, now) {
                Ok(last) => Ok(head + last),
                Err(e) => Err(e),
            },
            Err(e) => Err(e),
        }
    }
}

/// Evaluates `expr` where the remainder is `path` and the time is `now`.
pub fn evaluate(expr: &Expr, path: &str, now: Timestamp) -> (out: Result<Value, ExpansionError>)
    ensures
        match out {
            Ok(v) => value(expr@, path@, now) == Ok::<ValueModel, ExpansionError>(v@),
            Err(e) => value(expr@, path@, now) == Err::<ValueModel, ExpansionError>(e),
        },
    decreases expr,
{
    match expr {
        Expr::Literal(text) => {
            assert(text@.subrange(0, text@.len() as int) =~= text@);
            Ok(Value::Text(to_text(text, 0, text.len())))
        },
        Expr::Flag(flag) => Ok(Value::Flag(*flag)),
        Expr::Variable(name) => {
            let known = to_chars("path");
            if same_chars(name, &known) {
                Ok(Value::Text(path.to_owned()))
            } else {
                Ok(Value::Text(String::new()))
            }
        },
        Expr::Call(kind, args) => {
            let ghost models = expr@->Call_1;
            let mut evaluated: Vec<Value> = Vec::new();
            let mut i: usize = 0;
            assert(models.take(0) =~= Seq::<ExprModel>::empty());
            assert(value_models(evaluated@) =~= Seq::<ValueModel>::empty());
            while i < args.len()
                invariant
                    i <= args.len(),
                    expr is Call,
                    expr->Call_1 == args,
                    models == expr@->Call_1,
                    models.len() == args.len(),
                    values(models.take(i as int), path@, now) == Ok::<
                        Seq<ValueModel>,
                        ExpansionError,
                    >(value_models(evaluated@)),
                decreases args.len() - i,
            {
                let ghost before = value_models(evaluated@);
                assert(models.take(i + 1).drop_last() =~= models.take(i as int));
                assert(models.take(i + 1).last() == args[i as int]@);
                match evaluate(&args[i], path, now) {
                    Ok(v) => {
                        evaluated.push(v);
                        assert(value_models(evaluated@) =~= before.push(v@));
                    },
                    Err(e) => {
                        proof {
                            lemma_values_fail(models, i as int, path@, now);
                        }
                        return Err(e);
                    },
                }
                i += 1;
            }
            assert(models.take(args.len() as int) =~= models);
            apply(*kind, &evaluated, now)
        },
    }
}

/// Where the values of the first `i + 1` expressions fail, those of all
/// fail in the same way.
proof fn lemma_values_fail(exprs: Seq<ExprModel>, i: int, path: Seq<char>, now: Timestamp)
    requires
        0 <= i < exprs.len(),
        values(exprs.take(i + 1), path, now) is Err,
    ensures
        values(exprs, path, now) == values(exprs.take(i + 1), path, now),
    decreases exprs.len(),
{
    if i + 1 == exprs.len() {
        assert(exprs.take(i + 1) =~= exprs);
    } else {
        assert(exprs.drop_last().take(i + 1) =~= exprs.take(i + 1));
        lemma_values_fail(exprs.drop_last(), i, path, now);
    }
}

/// Where the first `i + 1` nodes fail to render, all fail in the same way.
proof fn lemma_rendered_fail(nodes: Seq<NodeModel>, i: int, path: Seq<char>, now: Timestamp)
    requires
        0 <= i < nodes.len(),
        rendered(nodes.take(i + 1), path, now) is Err,
    ensures
        rendered(nodes, path, now) == rendered(nodes.take(i + 1), path, now),
    decreases nodes.len(),
{
    if i + 1 == nodes.len() {
        assert(nodes.take(i + 1) =~= nodes);
    } else {
        assert(nodes.drop_last().take(i + 1) =~= nodes.take(i + 1));
        lemma_rendered_fail(nodes.drop_last(), i, path, now);
    }
}

/// Appends to `out` the text that stands for `v`.
fn show(out: &mut String, v: &Value)
    ensures
        final(out)@ == old(out)@ + shown(v@),
{
    match v {
        Value::Text(text) => out.append(text.as_str()),
        Value::Flag(true) => out.append("true"),
        Value::Flag(false) => out.append("false"),
    }
}

/// Whether a condition with value `v` holds.
fn is_true(v: &Value) -> (r: bool)
    ensures
        r == holds(v@),
{
    match v {
        Value::Text(text) => !text.as_str().is_empty(),
        Value::Flag(flag) => *flag,
    }
}

/// Appends to `out` what `nodes` render to. Where that is an error, what
/// `out` then holds is left open.
pub(crate) fn render_nodes(nodes: &Vec<Node>, path: &str, now: Timestamp, out: &mut String) -> (r: Result<
    (),
    ExpansionError,
>)
    ensures
        match r {
            Ok(()) => rendered(node_models(nodes@), path@, now) matches Ok(text)
                && final(out)@ == old(out)@ + text,
            Err(e) => rendered(node_models(nodes@), path@, now) == Err::<
                Seq<char>,
                ExpansionError,
            >(e),
        },
    decreases nodes,
{
    let ghost models = node_models(nodes@);
    let mut i: usize = 0;
    assert(models.take(0) =~= Seq::<NodeModel>::empty());
    assert(old(out)@ + Seq::<char>::empty() =~= old(out)@);
    while i < nodes.len()
        invariant
            i <= nodes.len(),
            models == node_models(nodes@),
            rendered(models.take(i as int), path@, now) matches Ok(text) && out@ == old(out)@
                + text,
        decreases nodes.len() - i,
    {
        let ghost start = out@;
        let ghost head = rendered(models.take(i as int), path@, now)->Ok_0;
        assert(models.take(i + 1).drop_last() =~= models.take(i as int));
        assert(models.take(i + 1).last() == nodes[i as int]@);
        match render_node(&nodes[i], path, now, out) {
            Ok(()) => {
                let ghost last = rendered_node(nodes[i as int]@, path@, now)->Ok_0;
                assert(out@ =~= old(out)@ + (head + last));
            },
            Err(e) => {
                proof {
                    lemma_rendered_fail(models, i as int, path@, now);
                }
                return Err(e);
            },
        }
        i += 1;
    }
    assert(models.take(nodes.len() as int) =~= models);
    Ok(())
}

/// Appends to `out` what `node` renders to. Where that is an error, what
/// `out` then holds is left open.
pub(crate) fn render_node(node: &Node, path: &str, now: Timestamp, out: &mut String) -> (r: Result<
    (),
    ExpansionError,
>)
    ensures
        match r {
            Ok(()) => rendered_node(node@, path@, now) matches Ok(text) && final(out)@ == old(
                out,
            )@ + text,
            Err(e) => rendered_node(node@, path@, now) == Err::<Seq<char>, ExpansionError>(e),
        },
    decreases node,
{
    match node {
        Node::Text(text) => {
            assert(text@.subrange(0, text@.len() as int) =~= text@);
            let piece = to_text(text, 0, text.len());
            out.append(piece.as_str());
            Ok(())
        },
        Node::Show(expr) => match evaluate(expr, path, now) {
            Ok(v) => {
                show(out, &v);
                Ok(())
            },
            Err(e) => Err(e),
        },
        Node::Branch(condition, taken, other) => match evaluate(condition, path, now) {
            Ok(v) => {
                assert(node@->Branch_1 =~= node_models(taken@));
                assert(node@->Branch_2 =~= node_models(other@));
                if is_true(&v) {
                    render_nodes(taken, path, now, out)
                } else {
                    render_nodes(other, path, now, out)
                }
            },
            Err(e) => Err(e),
        },
    }
}

impl Template {
    /// What the template renders to where the remainder is `path` and the
    /// time is `now`.
    pub fn render(&self, path: &str, now: Timestamp) -> (out: Result<String, ExpansionError>)
        ensures
            match out {
                Ok(text) => rendered(self@, path@, now) == Ok::<Seq<char>, ExpansionError>(text@),
                Err(e) => rendered(self@, path@, now) == Err::<Seq<char>, ExpansionError>(e),
            },
    {
        let mut out = String::new();
        match render_nodes(&self.nodes, path, now, &mut out) {
            Ok(()) => {
                assert(out@ =~= rendered(self@, path@, now)->Ok_0);
                Ok(out)
            },
            Err(e) => Err(e),
        }
    }
}

/// What the template `template` renders to for the remainder `path` at time
/// `now`, or why it renders to nothing.
pub open spec fn rendering(
    helpers: Map<Seq<char>, HelperKind>,
    template: Seq<char>,
    path: Seq<char>,
    now: Timestamp,
) -> Result<Seq<char>, ExpansionError> {
    match parsed(template, helpers) {
        Ok(nodes) => rendered(nodes, path, now),
        Err(e) => Err(e),
    }
}

/// `out` is the text or the error that `model` says.
pub open spec fn agrees(out: Result<String, ExpansionError>, model: Result<
    Seq<char>,
    ExpansionError,
>) -> bool {
    match out {
        Ok(text) => model == Ok::<Seq<char>, ExpansionError>(text@),
        Err(e) => model == Err::<Seq<char>, ExpansionError>(e),
    }
}

impl HelperSet {
    /// Renders `template` for the remainder `path` at time `now`.
    pub fn render_template_at(&self, template: &str, path: &str, now: Timestamp) -> (out: Result<
        String,
        ExpansionError,
    >)
        ensures
            agrees(out, rendering(self@, template@, path@, now)),
    {
        match Template::parse(template, self) {
            Ok(template) => template.render(path, now),
            Err(e) => Err(e),
        }
    }

    /// Renders `template` for the remainder `path` at the time of the call.
    /// A template that calls neither `now` nor `now_format` renders to what
    /// it renders to at any time.
    pub fn render_template(&self, template: &str, path: &str) -> (out: Result<
        String,
        ExpansionError,
    >)
        ensures
            exists|now: Timestamp| agrees(out, rendering(self@, template@, path@, now)),
            is_timeless(self@, template@) ==> forall|now: Timestamp|
                agrees(out, #[trigger] rendering(self@, template@, path@, now)),
    {
        let now = Timestamp::now();
        let out = self.render_template_at(template, path, now);
        assert(agrees(out, rendering(self@, template@, path@, now)));
        proof {
            if is_timeless(self@, template@) {
                assert forall|t: Timestamp|
                    agrees(out, #[trigger] rendering(self@, template@, path@, t)) by {
                    lemma_rendering_timeless(self@, template@, path@, now, t);
                }
            }
        }
        out
    }
}

/// `expr` calls a helper whose result depends on the time of the call.
pub open spec fn expr_reads_clock(expr: ExprModel) -> bool
    decreases expr,
{
    match expr {
        ExprModel::Call(kind, args) => kind.reads_clock() || exprs_read_clock(args),
        _ => false,
    }
}

/// One of `exprs` calls a helper whose result depends on the time of the
/// call.
pub open spec fn exprs_read_clock(exprs: Seq<ExprModel>) -> bool
    decreases exprs,
{
    if exprs.len() == 0 {
        false
    } else {
        exprs_read_clock(exprs.drop_last()) || expr_reads_clock(exprs.last())
    }
}

/// `node` calls a helper whose result depends on the time of the call.
pub open spec fn node_reads_clock(node: NodeModel) -> bool
    decreases node,
{
    match node {
        NodeModel::Text(_) => false,
        NodeModel::Show(expr) => expr_reads_clock(expr),
        NodeModel::Branch(condition, taken, other) => expr_reads_clock(condition)
            || nodes_read_clock(taken) || nodes_read_clock(other),
    }
}

/// One of `nodes` calls a helper whose result depends on the time of the
/// call.
pub open spec fn nodes_read_clock(nodes: Seq<NodeModel>) -> bool
    decreases nodes,
{
    if nodes.len() == 0 {
        false
    } else {
        nodes_read_clock(nodes.drop_last()) || node_reads_clock(nodes.last())
    }
}

/// The template `template` calls no helper whose result depends on the
/// time of the call.
pub open spec fn is_timeless(helpers: Map<Seq<char>, HelperKind>, template: Seq<char>) -> bool {
    match parsed(template, helpers) {
        Ok(nodes) => !nodes_read_clock(nodes),
        Err(_) => true,
    }
}

/// An expression that does not read the clock has the same value at any two
/// times.
pub proof fn lemma_value_timeless(expr: ExprModel, path: Seq<char>, t1: Timestamp, t2: Timestamp)
    requires
        !expr_reads_clock(expr),
    ensures
        value(expr, path, t1) == value(expr, path, t2),
    decreases expr,
{
    match expr {
        ExprModel::Call(kind, args) => {
            lemma_values_timeless(args, path, t1, t2);
        },
        _ => {},
    }
}

/// Expressions that do not read the clock have the same values at any two
/// times.
pub proof fn lemma_values_timeless(
    exprs: Seq<ExprModel>,
    path: Seq<char>,
    t1: Timestamp,
    t2: Timestamp,
)
    requires
        !exprs_read_clock(exprs),
    ensures
        values(exprs, path, t1) == values(exprs, path, t2),
    decreases exprs,
{
    if exprs.len() > 0 {
        lemma_values_timeless(exprs.drop_last(), path, t1, t2);
        lemma_value_timeless(exprs.last(), path, t1, t2);
    }
}

/// A node that does not read the clock renders to the same at any two times.
pub proof fn lemma_node_timeless(node: NodeModel, path: Seq<char>, t1: Timestamp, t2: Timestamp)
    requires
        !node_reads_clock(node),
    ensures
        rendered_node(node, path, t1) == rendered_node(node, path, t2),
    decreases node,
{
    match node {
        NodeModel::Text(_) => {},
        NodeModel::Show(expr) => {
            lemma_value_timeless(expr, path, t1, t2);
        },
        NodeModel::Branch(condition, taken, other) => {
            lemma_value_timeless(condition, path, t1, t2);
            lemma_nodes_timeless(taken, path, t1, t2);
            lemma_nodes_timeless(other, path, t1, t2);
        },
    }
}

/// Nodes that do not read the clock render to the same at any two times.
pub proof fn lemma_nodes_timeless(
    nodes: Seq<NodeModel>,
    path: Seq<char>,
    t1: Timestamp,
    t2: Timestamp,
)
    requires
        !nodes_read_clock(nodes),
    ensures
        rendered(nodes, path, t1) == rendered(nodes, path, t2),
    decreases nodes,
{
    if nodes.len() > 0 {
        lemma_nodes_timeless(nodes.drop_last(), path, t1, t2);
        lemma_node_timeless(nodes.last(), path, t1, t2);
    }
}

/// A template that calls neither `now` nor `now_format` renders to the same
/// text, or fails in the same way, whenever it is rendered.
pub proof fn lemma_rendering_timeless(
    helpers: Map<Seq<char>, HelperKind>,
    template: Seq<char>,
    path: Seq<char>,
    t1: Timestamp,
    t2: Timestamp,
)
    requires
        is_timeless(helpers, template),
    ensures
        rendering(helpers, template, path, t1) == rendering(helpers, template, path, t2),
{
    match parsed(template, helpers) {
        Ok(nodes) => {
            lemma_nodes_timeless(nodes, path, t1, t2);
        },
        Err(_) => {},
    }
}

} // verus!
