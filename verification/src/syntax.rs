//! The expressions of a destination pattern: what stands between `{{` and
//! `}}`.
//!
//! A tag's text is cut into tokens (words, quoted texts and parentheses), and
//! the tokens are read as an expression: a quoted text, `true` or `false`, a
//! name, or a helper with its arguments, each of which is an expression again,
//! a call among them in parentheses.

use crate::helpers::{ExpansionError, HelperKind, HelperSet};
use crate::text::{push_range, same_chars, to_chars};
use vstd::prelude::*;

verus! {

/// A token of a tag, as a mathematical value.
pub enum TokenModel {
    Word(Seq<char>),
    Quoted(Seq<char>),
    Open,
    Close,
}

/// A token of a tag.
#[derive(Debug)]
pub enum Token {
    /// A run of word characters.
    Word(Vec<char>),
    /// A text that stood between quotes, its escapes resolved.
    Quoted(Vec<char>),
    /// `(`
    Open,
    /// `)`
    Close,
}

impl View for Token {
    type V = TokenModel;

    open spec fn view(&self) -> TokenModel {
        match self {
            Token::Word(word) => TokenModel::Word(word@),
            Token::Quoted(text) => TokenModel::Quoted(text@),
            Token::Open => TokenModel::Open,
            Token::Close => TokenModel::Close,
        }
    }
}

/// The views of a sequence of tokens.
pub open spec fn token_models(tokens: Seq<Token>) -> Seq<TokenModel> {
    Seq::new(tokens.len(), |i: int| tokens[i]@)
}

/// An expression, as a mathematical value.
pub enum ExprModel {
    Literal(Seq<char>),
    Flag(bool),
    Variable(Seq<char>),
    Call(HelperKind, Seq<ExprModel>),
}

/// An expression.
#[derive(Debug)]
pub enum Expr {
    /// A quoted text.
    Literal(Vec<char>),
    /// `true` or `false`.
    Flag(bool),
    /// A name, which stands for a value of the request.
    Variable(Vec<char>),
    /// A helper and its arguments.
    Call(HelperKind, Vec<Expr>),
}

impl View for Expr {
    type V = ExprModel;

    open spec fn view(&self) -> ExprModel
        decreases self,
    {
        match self {
            Expr::Literal(text) => ExprModel::Literal(text@),
            Expr::Flag(flag) => ExprModel::Flag(*flag),
            Expr::Variable(name) => ExprModel::Variable(name@),
            Expr::Call(kind, args) => ExprModel::Call(
                *kind,
                Seq::new(
                    args.len() as nat,
                    |i: int|
                        if 0 <= i < args.len() {
                            args[i]@
                        } else {
                            ExprModel::Flag(false)
                        },
                ),
            ),
        }
    }
}

/// The views of a sequence of expressions.
pub open spec fn expr_models(exprs: Seq<Expr>) -> Seq<ExprModel> {
    Seq::new(exprs.len(), |i: int| exprs[i]@)
}

/// `c` separates tokens.
pub open spec fn is_space(c: char) -> bool {
    c == ' ' || c == '\t' || c == '\n' || c == '\r'
}

/// `c` can stand in a word: an ASCII letter or digit, or one of `_-./#@$:`.
pub open spec fn is_word_char(c: char) -> bool {
    ||| 'a' <= c <= 'z'
    ||| 'A' <= c <= 'Z'
    ||| '0' <= c <= '9'
    ||| c == '_'
    ||| c == '-'
    ||| c == '.'
    ||| c == '/'
    ||| c == '#'
    ||| c == '@'
    ||| c == '$'
    ||| c == ':'
}

/// The character that `\` and `c` stand for in a quoted text.
pub open spec fn unescaped(c: char) -> Option<char> {
    if c == '\\' || c == '"' || c == '\'' || c == '/' {
        Some(c)
    } else if c == 'n' {
        Some('\n')
    } else if c == 'r' {
        Some('\r')
    } else if c == 't' {
        Some('\t')
    } else {
        None
    }
}

/// The end of the word that starts at `from`: the first position from there
/// on that holds no word character.
pub open spec fn word_end(s: Seq<char>, from: int) -> int
    decreases s.len() - from,
{
    if 0 <= from < s.len() && is_word_char(s[from]) {
        word_end(s, from + 1)
    } else {
        from
    }
}

/// The text of a quoted token whose opening quote stands just before `from`,
/// and the position after its closing quote; `None` where the quote is not
/// closed or `\` stands before a character it cannot escape.
pub open spec fn quoted(s: Seq<char>, from: int, quote: char) -> Option<(Seq<char>, int)>
    decreases s.len() - from,
{
    if from < 0 || from >= s.len() {
        None
    } else if s[from] == quote {
        Some((Seq::empty(), from + 1))
    } else if s[from] == '\\' {
        if from + 1 >= s.len() {
            None
        } else {
            match (unescaped(s[from + 1]), quoted(s, from + 2, quote)) {
                (Some(c), Some((rest, end))) => Some((seq![c] + rest, end)),
                _ => None,
            }
        }
    } else {
        match quoted(s, from + 1, quote) {
            Some((rest, end)) => Some((seq![s[from]] + rest, end)),
            None => None,
        }
    }
}

/// A word ends at or after its start, within the text.
pub proof fn lemma_word_end(s: Seq<char>, from: int)
    requires
        0 <= from <= s.len(),
    ensures
        from <= word_end(s, from) <= s.len(),
        from < s.len() && is_word_char(s[from]) ==> from < word_end(s, from),
    decreases s.len() - from,
{
    if from < s.len() && is_word_char(s[from]) {
        lemma_word_end(s, from + 1);
    }
}

/// A quoted text ends after its start, within the text.
pub proof fn lemma_quoted(s: Seq<char>, from: int, quote: char)
    requires
        0 <= from,
    ensures
        quoted(s, from, quote) matches Some((_, end)) ==> from < end <= s.len(),
    decreases s.len() - from,
{
    if from >= s.len() {
    } else if s[from] == quote {
    } else if s[from] == '\\' {
        if from + 1 < s.len() {
            lemma_quoted(s, from + 2, quote);
        }
    } else {
        lemma_quoted(s, from + 1, quote);
    }
}

/// The tokens of `s` from position `from` on; `None` where a character
/// stands there that starts no token, or a quoted text does not end.
pub open spec fn tokens(s: Seq<char>, from: int) -> Option<Seq<TokenModel>>
    decreases s.len() - from,
{
    if from < 0 || from >= s.len() {
        Some(Seq::empty())
    } else if is_space(s[from]) {
        tokens(s, from + 1)
    } else if s[from] == '(' {
        match tokens(s, from + 1) {
            Some(rest) => Some(seq![TokenModel::Open] + rest),
            None => None,
        }
    } else if s[from] == ')' {
        match tokens(s, from + 1) {
            Some(rest) => Some(seq![TokenModel::Close] + rest),
            None => None,
        }
    } else if s[from] == '"' || s[from] == '\'' {
        match quoted(s, from + 1, s[from]) {
            Some((text, end)) => {
                proof {
                    lemma_quoted(s, from + 1, s[from]);
                }
                match tokens(s, end) {
                    Some(rest) => Some(seq![TokenModel::Quoted(text)] + rest),
                    None => None,
                }
            },
            None => None,
        }
    } else if is_word_char(s[from]) {
        proof {
            lemma_word_end(s, from);
        }
        match tokens(s, word_end(s, from)) {
            Some(rest) => Some(seq![TokenModel::Word(s.subrange(from, word_end(s, from)))] + rest),
            None => None,
        }
    } else {
        None
    }
}

/// What a word that is no helper stands for: a flag or a name.
pub open spec fn atom(word: Seq<char>) -> ExprModel {
    if word == "true"@ {
        ExprModel::Flag(true)
    } else if word == "false"@ {
        ExprModel::Flag(false)
    } else {
        ExprModel::Variable(word)
    }
}

/// The call of `kind` on `args`, where their number is the helper's.
pub open spec fn call(kind: HelperKind, args: Seq<ExprModel>) -> Result<ExprModel, ExpansionError> {
    if args.len() == kind.arity() {
        Ok(ExprModel::Call(kind, args))
    } else {
        Err(ExpansionError::Arity)
    }
}

/// The argument that starts at token `pos`, and the position after it: a
/// word, a quoted text, or a helper call in parentheses.
pub open spec fn argument(
    toks: Seq<TokenModel>,
    pos: int,
    helpers: Map<Seq<char>, HelperKind>,
) -> Result<(ExprModel, int), ExpansionError>
    decreases toks.len() - pos, 0int,
{
    if pos < 0 || pos >= toks.len() {
        Err(ExpansionError::Syntax)
    } else {
        match toks[pos] {
            TokenModel::Word(word) => Ok((atom(word), pos + 1)),
            TokenModel::Quoted(text) => Ok((ExprModel::Literal(text), pos + 1)),
            TokenModel::Close => Err(ExpansionError::Syntax),
            TokenModel::Open => if pos + 1 >= toks.len() {
                Err(ExpansionError::Syntax)
            } else {
                match toks[pos + 1] {
                    TokenModel::Word(word) => if !helpers.contains_key(word) {
                        Err(ExpansionError::UnknownHelper)
                    } else {
                        match arguments(toks, pos + 2, true, helpers) {
                            Ok((args, end)) => match call(helpers[word], args) {
                                Ok(expr) => Ok((expr, end + 1)),
                                Err(e) => Err(e),
                            },
                            Err(e) => Err(e),
                        }
                    },
                    _ => Err(ExpansionError::Syntax),
                }
            },
        }
    }
}

/// The arguments from token `pos` on, up to the end of the tokens or, where
/// `nested`, up to the `)` that closes the call, and the position they end at.
/// (An argument ends after its start and within the tokens: the test on
/// `next` only shows that this definition is well founded.)
pub open spec fn arguments(
    toks: Seq<TokenModel>,
    pos: int,
    nested: bool,
    helpers: Map<Seq<char>, HelperKind>,
) -> Result<(Seq<ExprModel>, int), ExpansionError>
    decreases toks.len() - pos, 1int,
{
    if pos < 0 {
        Err(ExpansionError::Syntax)
    } else if pos >= toks.len() {
        if nested {
            Err(ExpansionError::Syntax)
        } else {
            Ok((Seq::empty(), pos))
        }
    } else if toks[pos] is Close {
        if nested {
            Ok((Seq::empty(), pos))
        } else {
            Err(ExpansionError::Syntax)
        }
    } else {
        match argument(toks, pos, helpers) {
            Ok((first, next)) => if next <= pos || next > toks.len() {
                Err(ExpansionError::Syntax)
            } else {
                match arguments(toks, next, nested, helpers) {
                    Ok((rest, end)) => Ok((seq![first] + rest, end)),
                    Err(e) => Err(e),
                }
            },
            Err(e) => Err(e),
        }
    }
}

/// An argument ends after its start and within the tokens, and the
/// arguments of a call in parentheses end at its `)`: the tests on positions
/// in the two definitions never fail.
pub proof fn lemma_argument_advances(
    toks: Seq<TokenModel>,
    pos: int,
    nested: bool,
    helpers: Map<Seq<char>, HelperKind>,
)
    requires
        0 <= pos,
    ensures
        argument(toks, pos, helpers) matches Ok((_, next)) ==> pos < next <= toks.len(),
        arguments(toks, pos, nested, helpers) matches Ok((_, end)) ==> {
            &&& pos <= end
            &&& nested ==> end < toks.len() && toks[end] is Close
            &&& !nested ==> end >= toks.len()
        },
    decreases toks.len() - pos,
{
    if pos < toks.len() {
        if toks[pos] is Open && pos + 1 < toks.len() {
            lemma_argument_advances(toks, pos + 2, true, helpers);
        }
        if !(toks[pos] is Close) {
            match argument(toks, pos, helpers) {
                Ok((_, next)) => {
                    lemma_argument_advances(toks, next, nested, helpers);
                },
                Err(_) => {},
            }
        }
    }
}

/// The expression that the tokens from `start` on make up: a helper with its
/// arguments where the first word names one, else a single argument.
pub open spec fn expression(
    toks: Seq<TokenModel>,
    start: int,
    helpers: Map<Seq<char>, HelperKind>,
) -> Result<ExprModel, ExpansionError> {
    if start < 0 || start >= toks.len() {
        Err(ExpansionError::Syntax)
    } else {
        match toks[start] {
            TokenModel::Word(word) => if helpers.contains_key(word) {
                match arguments(toks, start + 1, false, helpers) {
                    Ok((args, _)) => call(helpers[word], args),
                    Err(e) => Err(e),
                }
            } else if toks.len() == start + 1 {
                Ok(atom(word))
            } else {
                Err(ExpansionError::UnknownHelper)
            },
            _ => match argument(toks, start, helpers) {
                Ok((expr, next)) => if next == toks.len() {
                    Ok(expr)
                } else {
                    Err(ExpansionError::Syntax)
                },
                Err(e) => Err(e),
            },
        }
    }
}

/// Whether `c` separates tokens.
fn space(c: char) -> (r: bool)
    ensures
        r == is_space(c),
{
    c == ' ' || c == '\t' || c == '\n' || c == '\r'
}

/// Whether `c` can stand in a word.
fn word_char(c: char) -> (r: bool)
    ensures
        r == is_word_char(c),
{
    ('a' <= c && c <= 'z') || ('A' <= c && c <= 'Z') || ('0' <= c && c <= '9') || c == '_' || c
        == '-' || c == '.' || c == '/' || c == '#' || c == '@' || c == '$' || c == ':'
}

/// The character that `\` and `c` stand for in a quoted text.
fn unescape(c: char) -> (r: Option<char>)
    ensures
        r == unescaped(c),
{
    if c == '\\' || c == '"' || c == '\'' || c == '/' {
        Some(c)
    } else if c == 'n' {
        Some('\n')
    } else if c == 'r' {
        Some('\r')
    } else if c == 't' {
        Some('\t')
    } else {
        None
    }
}

/// Reads the quoted text whose opening quote stands just before `from`.
fn read_quoted(s: &Vec<char>, from: usize, quote: char) -> (out: Option<(Vec<char>, usize)>)
    requires
        from <= s.len(),
    ensures
        match out {
            Some((text, end)) => quoted(s@, from as int, quote) == Some((text@, end as int))
                && from < end <= s.len(),
            None => quoted(s@, from as int, quote) is None,
        },
{
    let mut text: Vec<char> = Vec::new();
    let mut i: usize = from;
    loop
        invariant
            from <= i <= s.len(),
            quoted(s@, from as int, quote) == match quoted(s@, i as int, quote) {
                Some((rest, end)) => Some((text@ + rest, end)),
                None => None,
            },
        decreases s.len() - i,
    {
        if i >= s.len() {
            return None;
        }
        let c = s[i];
        if c == quote {
            assert(text@ + Seq::<char>::empty() =~= text@);
            return Some((text, i + 1));
        }
        if c == '\\' {
            if i + 1 >= s.len() {
                return None;
            }
            match unescape(s[i + 1]) {
                Some(plain) => {
                    proof {
                        let before = text@;
                        assert forall|rest: Seq<char>|
                            before.push(plain) + rest == before + (seq![plain] + rest) by {
                            assert(before.push(plain) + rest =~= before + (seq![plain] + rest));
                        }
                    }
                    text.push(plain);
                    i += 2;
                },
                None => {
                    return None;
                },
            }
        } else {
            proof {
                let before = text@;
                assert forall|rest: Seq<char>|
                    before.push(c) + rest == before + (seq![c] + rest) by {
                    assert(before.push(c) + rest =~= before + (seq![c] + rest));
                }
            }
            text.push(c);
            i += 1;
        }
    }
}

/// Cuts the text of a tag into tokens.
pub fn lex(s: &Vec<char>) -> (out: Option<Vec<Token>>)
    ensures
        match out {
            Some(toks) => tokens(s@, 0) == Some(token_models(toks@)),
            None => tokens(s@, 0) is None,
        },
{
    let mut toks: Vec<Token> = Vec::new();
    let mut i: usize = 0;
    while i < s.len()
        invariant
            i <= s.len(),
            tokens(s@, 0) == match tokens(s@, i as int) {
                Some(rest) => Some(token_models(toks@) + rest),
                None => None,
            },
        decreases s.len() - i,
    {
        let c = s[i];
        let ghost before = token_models(toks@);
        if space(c) {
            i += 1;
        } else if c == '(' {
            toks.push(Token::Open);
            proof {
                lemma_pushed(before, token_models(toks@), TokenModel::Open);
            }
            i += 1;
        } else if c == ')' {
            toks.push(Token::Close);
            proof {
                lemma_pushed(before, token_models(toks@), TokenModel::Close);
            }
            i += 1;
        } else if c == '"' || c == '\'' {
            match read_quoted(s, i + 1, c) {
                Some((text, end)) => {
                    let ghost model = TokenModel::Quoted(text@);
                    toks.push(Token::Quoted(text));
                    proof {
                        lemma_pushed(before, token_models(toks@), model);
                    }
                    i = end;
                },
                None => {
                    return None;
                },
            }
        } else if word_char(c) {
            let start = i;
            proof {
                lemma_word_end(s@, i as int);
            }
            while i < s.len() && word_char(s[i])
                invariant
                    start <= i <= s.len(),
                    word_end(s@, start as int) == word_end(s@, i as int),
                decreases s.len() - i,
            {
                i += 1;
            }
            let mut word: Vec<char> = Vec::new();
            push_range(&mut word, s, start, i);
            assert(word@ =~= s@.subrange(start as int, i as int));
            let ghost model = TokenModel::Word(word@);
            toks.push(Token::Word(word));
            proof {
                lemma_pushed(before, token_models(toks@), model);
            }
        } else {
            return None;
        }
    }
    assert(token_models(toks@) + Seq::<TokenModel>::empty() =~= token_models(toks@));
    Some(toks)
}

/// Where `after` is `before` with `x` pushed, `after + rest` is `before`
/// followed by `x` and `rest`.
proof fn lemma_pushed<T>(before: Seq<T>, after: Seq<T>, x: T)
    requires
        after =~= before.push(x),
    ensures
        forall|rest: Seq<T>| #[trigger] (after + rest) == before + (seq![x] + rest),
{
    assert forall|rest: Seq<T>| #[trigger] (after + rest) == before + (seq![x] + rest) by {
        assert(after + rest =~= before + (seq![x] + rest));
    }
}

/// A copy of `chars`.
fn copied(chars: &Vec<char>) -> (out: Vec<char>)
    ensures
        out@ == chars@,
{
    let mut out: Vec<char> = Vec::new();
    push_range(&mut out, chars, 0, chars.len());
    assert(out@ =~= chars@);
    out
}

/// What a word that is no helper stands for.
fn read_atom(word: &Vec<char>) -> (expr: Expr)
    ensures
        expr@ == atom(word@),
{
    let yes = to_chars("true");
    let no = to_chars("false");
    if same_chars(word, &yes) {
        Expr::Flag(true)
    } else if same_chars(word, &no) {
        Expr::Flag(false)
    } else {
        Expr::Variable(copied(word))
    }
}

/// The call of `kind` on `args`, where their number is the helper's.
fn make_call(kind: HelperKind, args: Vec<Expr>) -> (out: Result<Expr, ExpansionError>)
    ensures
        match out {
            Ok(expr) => call(kind, expr_models(args@)) == Ok::<ExprModel, ExpansionError>(expr@),
            Err(e) => call(kind, expr_models(args@)) == Err::<ExprModel, ExpansionError>(e),
        },
{
    if args.len() == kind.parameters() {
        let ghost models = expr_models(args@);
        let expr = Expr::Call(kind, args);
        assert(expr@->Call_1 =~= models);
        Ok(expr)
    } else {
        Err(ExpansionError::Arity)
    }
}

/// Reads the argument that starts at token `pos`.
pub fn parse_argument(toks: &Vec<Token>, pos: usize, helpers: &HelperSet) -> (out: Result<
    (Expr, usize),
    ExpansionError,
>)
    ensures
        match out {
            Ok((expr, next)) => {
                &&& argument(token_models(toks@), pos as int, helpers@) == Ok::<
                    (ExprModel, int),
                    ExpansionError,
                >((expr@, next as int))
                &&& pos < next <= toks.len()
            },
            Err(e) => argument(token_models(toks@), pos as int, helpers@) == Err::<
                (ExprModel, int),
                ExpansionError,
            >(e),
        },
    decreases toks.len() - pos, 0int,
{
    if pos >= toks.len() {
        return Err(ExpansionError::Syntax);
    }
    match &toks[pos] {
        Token::Word(word) => Ok((read_atom(word), pos + 1)),
        Token::Quoted(text) => Ok((Expr::Literal(copied(text)), pos + 1)),
        Token::Close => Err(ExpansionError::Syntax),
        Token::Open => {
            if pos + 1 >= toks.len() {
                return Err(ExpansionError::Syntax);
            }
            match &toks[pos + 1] {
                Token::Word(word) => {
                    match helpers.lookup(word) {
                        None => Err(ExpansionError::UnknownHelper),
                        Some(kind) => {
                            match parse_arguments(toks, pos + 2, true, helpers) {
                                Ok((args, end)) => match make_call(kind, args) {
                                    Ok(expr) => Ok((expr, end + 1)),
                                    Err(e) => Err(e),
                                },
                                Err(e) => Err(e),
                            }
                        },
                    }
                },
                _ => Err(ExpansionError::Syntax),
            }
        },
    }
}

/// Reads the arguments from token `pos` on, up to the end of the tokens or,
/// where `nested`, up to the `)` that closes the call.
pub(crate) fn parse_arguments(toks: &Vec<Token>, pos: usize, nested: bool, helpers: &HelperSet) -> (out:
    Result<(Vec<Expr>, usize), ExpansionError>)
    requires
        pos <= toks.len(),
    ensures
        match out {
            Ok((args, end)) => {
                &&& arguments(token_models(toks@), pos as int, nested, helpers@) == Ok::<
                    (Seq<ExprModel>, int),
                    ExpansionError,
                >((expr_models(args@), end as int))
                &&& pos <= end <= toks.len()
                &&& nested ==> end < toks.len()
            },
            Err(e) => arguments(token_models(toks@), pos as int, nested, helpers@) == Err::<
                (Seq<ExprModel>, int),
                ExpansionError,
            >(e),
        },
    decreases toks.len() - pos, 1int,
{
    let ghost tm = token_models(toks@);
    let mut args: Vec<Expr> = Vec::new();
    let mut i: usize = pos;
    loop
        invariant
            pos <= i <= toks.len(),
            tm == token_models(toks@),
            arguments(tm, pos as int, nested, helpers@) == match arguments(
                tm,
                i as int,
                nested,
                helpers@,
            ) {
                Ok((rest, end)) => Ok((expr_models(args@) + rest, end)),
                Err(e) => Err(e),
            },
        decreases toks.len() - i,
    {
        if i >= toks.len() {
            if nested {
                return Err(ExpansionError::Syntax);
            }
            assert(expr_models(args@) + Seq::<ExprModel>::empty() =~= expr_models(args@));
            return Ok((args, i));
        }
        if matches!(&toks[i], Token::Close) {
            if !nested {
                return Err(ExpansionError::Syntax);
            }
            assert(expr_models(args@) + Seq::<ExprModel>::empty() =~= expr_models(args@));
            return Ok((args, i));
        }
        match parse_argument(toks, i, helpers) {
            Ok((expr, next)) => {
                let ghost before = expr_models(args@);
                let ghost model = expr@;
                args.push(expr);
                proof {
                    lemma_pushed(before, expr_models(args@), model);
                }
                i = next;
            },
            Err(e) => {
                return Err(e);
            },
        }
    }
}

/// Reads the expression that the tokens from `start` on make up.
pub fn parse_expression(toks: &Vec<Token>, start: usize, helpers: &HelperSet) -> (out: Result<
    Expr,
    ExpansionError,
>)
    ensures
        match out {
            Ok(expr) => expression(token_models(toks@), start as int, helpers@) == Ok::<
                ExprModel,
                ExpansionError,
            >(expr@),
            Err(e) => expression(token_models(toks@), start as int, helpers@) == Err::<
                ExprModel,
                ExpansionError,
            >(e),
        },
{
    if start >= toks.len() {
        return Err(ExpansionError::Syntax);
    }
    match &toks[start] {
        Token::Word(word) => {
            match helpers.lookup(word) {
                Some(kind) => match parse_arguments(toks, start + 1, false, helpers) {
                    Ok((args, _)) => make_call(kind, args),
                    Err(e) => Err(e),
                },
                None => if toks.len() == start + 1 {
                    Ok(read_atom(word))
                } else {
                    Err(ExpansionError::UnknownHelper)
                },
            }
        },
        _ => match parse_argument(toks, start, helpers) {
            Ok((expr, next)) => if next == toks.len() {
                Ok(expr)
            } else {
                Err(ExpansionError::Syntax)
            },
            Err(e) => Err(e),
        },
    }
}

} // verus!
