//! The helper functions that a destination pattern can call, and the values
//! they work on.

use crate::clock::{formatted_time, parsed_time, rfc3339_text, Timestamp};
use crate::escape::{encoded, escape, EscapeSet};
use crate::text::{same_chars, stands_at, to_chars, to_text};
use vstd::prelude::*;
use vstd::string::*;

verus! {

/// Why a pattern could not be expanded into a URL.
#[derive(Clone, Copy, Debug, PartialEq, Eq, Structural)]
pub enum ExpansionError {
    /// The pattern is not well formed.
    Syntax,
    /// The pattern calls a helper that the helper set does not hold.
    UnknownHelper,
    /// A helper is called with the wrong number of arguments.
    Arity,
    /// A helper is given a value it cannot work on.
    Argument,
    /// The expanded text is not a URL.
    InvalidUrl,
}

impl ExpansionError {
    /// What went wrong, in words.
    pub fn to_text(&self) -> (text: String)
        ensures
            text@ == match *self {
                ExpansionError::Syntax => "the pattern is not well formed"@,
                ExpansionError::UnknownHelper => "the pattern calls an unknown helper"@,
                ExpansionError::Arity => "a helper is called with the wrong number of arguments"@,
                ExpansionError::Argument => "a helper is given a value it cannot work on"@,
                ExpansionError::InvalidUrl => "the expanded text is not a URL"@,
            },
    {
        match self {
            ExpansionError::Syntax => "the pattern is not well formed".to_owned(),
            ExpansionError::UnknownHelper => "the pattern calls an unknown helper".to_owned(),
            ExpansionError::Arity => "a helper is called with the wrong number of arguments".to_owned(),
            ExpansionError::Argument => "a helper is given a value it cannot work on".to_owned(),
            ExpansionError::InvalidUrl => "the expanded text is not a URL".to_owned(),
        }
    }
}

/// The helper functions, as a closed set.
#[derive(Clone, Copy, Debug, PartialEq, Eq, Structural)]
pub enum HelperKind {
    /// Percent-encodes a text for use in a query string.
    QueryEscape,
    /// Percent-encodes a text for use as one component.
    Encode,
    /// Percent-encodes a text for use in a path.
    PathEscape,
    /// Removes a prefix from a text, where the text starts with it.
    TrimPrefix,
    /// Removes a suffix from a text, where the text ends with it.
    TrimSuffix,
    /// Folds a text to lower case.
    ToLower,
    /// Folds a text to upper case.
    ToUpper,
    /// The current time, as RFC 3339.
    Now,
    /// The current time, written after a pattern.
    NowFormat,
    /// A given time, written after a pattern.
    DateFormat,
    /// Whether a regular expression matches a text.
    Match,
}

impl HelperKind {
    /// The number of arguments that the helper takes.
    pub open spec fn arity(self) -> nat {
        match self {
            HelperKind::Now => 0,
            HelperKind::QueryEscape
            | HelperKind::Encode
            | HelperKind::PathEscape
            | HelperKind::ToLower
            | HelperKind::ToUpper
            | HelperKind::NowFormat => 1,
            HelperKind::TrimPrefix
            | HelperKind::TrimSuffix
            | HelperKind::DateFormat
            | HelperKind::Match => 2,
        }
    }

    /// Whether the helper's result depends on the time of the call.
    pub open spec fn reads_clock(self) -> bool {
        self == HelperKind::Now || self == HelperKind::NowFormat
    }

    /// The number of arguments that the helper takes.
    pub fn parameters(self) -> (n: usize)
        ensures
            n == self.arity(),
    {
        match self {
            HelperKind::Now => 0,
            HelperKind::QueryEscape
            | HelperKind::Encode
            | HelperKind::PathEscape
            | HelperKind::ToLower
            | HelperKind::ToUpper
            | HelperKind::NowFormat => 1,
            HelperKind::TrimPrefix
            | HelperKind::TrimSuffix
            | HelperKind::DateFormat
            | HelperKind::Match => 2,
        }
    }
}

/// What an expression of a pattern evaluates to, as a mathematical value.
pub enum ValueModel {
    Text(Seq<char>),
    Flag(bool),
}

/// What an expression of a pattern evaluates to.
#[derive(Debug)]
pub enum Value {
    Text(String),
    Flag(bool),
}

impl View for Value {
    type V = ValueModel;

    open spec fn view(&self) -> ValueModel {
        match self {
            Value::Text(text) => ValueModel::Text(text@),
            Value::Flag(flag) => ValueModel::Flag(*flag),
        }
    }
}

/// The views of a sequence of values.
pub open spec fn value_models(values: Seq<Value>) -> Seq<ValueModel> {
    Seq::new(values.len(), |i: int| values[i]@)
}

/// `text` folded to lower case, as Unicode defines it.
pub uninterp spec fn lowercase_of(text: Seq<char>) -> Seq<char>;

/// `text` folded to upper case, as Unicode defines it.
pub uninterp spec fn uppercase_of(text: Seq<char>) -> Seq<char>;

/// Whether the regular expression `pattern` matches somewhere in `text`, or
/// `None` where `pattern` is no regular expression.
pub uninterp spec fn regex_verdict(pattern: Seq<char>, text: Seq<char>) -> Option<bool>;

/// `str::to_lowercase`: the lower-case form of the text depends on the text
/// alone.
#[verifier::external_body]
pub(crate) fn to_lowercase(text: &str) -> (out: String)
    ensures
        out@ == lowercase_of(text@),
{
    text.to_lowercase()
}

/// `str::to_uppercase`: the upper-case form of the text depends on the text
/// alone.
#[verifier::external_body]
pub(crate) fn to_uppercase(text: &str) -> (out: String)
    ensures
        out@ == uppercase_of(text@),
{
    text.to_uppercase()
}

/// `regex::Regex::new` and, on the expression it built, `Regex::is_match`:
/// whether the pattern compiles, and whether it then matches, depends on the
/// two texts alone.
#[verifier::external_body]
pub(crate) fn regex_match(pattern: &str, text: &str) -> (out: Option<bool>)
    ensures
        out == regex_verdict(pattern@, text@),
{
    match regex::Regex::new(pattern) {
        Ok(compiled) => Some(compiled.is_match(text)),
        Err(_) => None,
    }
}

/// `text` without `prefix` at its start, or `text` where it does not start
/// with `prefix`.
pub open spec fn without_prefix(text: Seq<char>, prefix: Seq<char>) -> Seq<char> {
    if prefix.len() <= text.len() && text.subrange(0, prefix.len() as int) == prefix {
        text.subrange(prefix.len() as int, text.len() as int)
    } else {
        text
    }
}

/// `text` without `suffix` at its end, or `text` where it does not end with
/// `suffix`.
pub open spec fn without_suffix(text: Seq<char>, suffix: Seq<char>) -> Seq<char> {
    if suffix.len() <= text.len() && text.subrange(text.len() - suffix.len(), text.len() as int)
        == suffix {
        text.subrange(0, text.len() - suffix.len())
    } else {
        text
    }
}

/// Removes `prefix` from the start of `text`, if it stands there.
pub fn trim_prefix(text: &str, prefix: &str) -> (out: String)
    ensures
        out@ == without_prefix(text@, prefix@),
{
    let chars = to_chars(text);
    let lead = to_chars(prefix);
    if stands_at(&chars, &lead, 0) {
        to_text(&chars, lead.len(), chars.len())
    } else {
        assert(chars@.subrange(0, chars@.len() as int) =~= chars@);
        to_text(&chars, 0, chars.len())
    }
}

/// Removes `suffix` from the end of `text`, if it stands there.
pub fn trim_suffix(text: &str, suffix: &str) -> (out: String)
    ensures
        out@ == without_suffix(text@, suffix@),
{
    let chars = to_chars(text);
    let tail = to_chars(suffix);
    if tail.len() <= chars.len() && stands_at(&chars, &tail, chars.len() - tail.len()) {
        to_text(&chars, 0, chars.len() - tail.len())
    } else {
        assert(chars@.subrange(0, chars@.len() as int) =~= chars@);
        to_text(&chars, 0, chars.len())
    }
}

/// Every value of `args` is a text.
pub open spec fn all_text(args: Seq<ValueModel>) -> bool {
    forall|i: int| 0 <= i < args.len() ==> args[i] is Text
}

/// The texts that `args` holds, where all of them are texts.
pub open spec fn texts(args: Seq<ValueModel>) -> Seq<Seq<char>> {
    Seq::new(args.len(), |i: int| args[i]->Text_0)
}

/// The value made of a time's text, where there is one.
pub open spec fn timed(text: Option<Seq<char>>) -> Result<ValueModel, ExpansionError> {
    match text {
        Some(text) => Ok(ValueModel::Text(text)),
        None => Err(ExpansionError::Argument),
    }
}

/// What helper `kind` makes of the texts `a`, as many as it takes, at time
/// `now`.
pub open spec fn computed(kind: HelperKind, a: Seq<Seq<char>>, now: Timestamp) -> Result<
    ValueModel,
    ExpansionError,
> {
    match kind {
        HelperKind::QueryEscape => Ok(ValueModel::Text(encoded(EscapeSet::Query, a[0]))),
        HelperKind::Encode => Ok(ValueModel::Text(encoded(EscapeSet::Component, a[0]))),
        HelperKind::PathEscape => Ok(ValueModel::Text(encoded(EscapeSet::Path, a[0]))),
        HelperKind::TrimPrefix => Ok(ValueModel::Text(without_prefix(a[0], a[1]))),
        HelperKind::TrimSuffix => Ok(ValueModel::Text(without_suffix(a[0], a[1]))),
        HelperKind::ToLower => Ok(ValueModel::Text(lowercase_of(a[0]))),
        HelperKind::ToUpper => Ok(ValueModel::Text(uppercase_of(a[0]))),
        HelperKind::Now => timed(rfc3339_text(now.secs as int, now.nanos as int)),
        HelperKind::NowFormat => timed(formatted_time(now.secs as int, now.nanos as int, a[0])),
        HelperKind::DateFormat => match parsed_time(a[0]) {
            Some((secs, nanos)) => timed(formatted_time(secs, nanos, a[1])),
            None => Err(ExpansionError::Argument),
        },
        HelperKind::Match => Ok(ValueModel::Flag(regex_verdict(a[0], a[1]) == Some(true))),
    }
}

/// What helper `kind` makes of the arguments `args` at time `now`: an error
/// where their number is not the helper's or one of them is no text.
pub open spec fn applied(kind: HelperKind, args: Seq<ValueModel>, now: Timestamp) -> Result<
    ValueModel,
    ExpansionError,
> {
    if args.len() != kind.arity() {
        Err(ExpansionError::Arity)
    } else if !all_text(args) {
        Err(ExpansionError::Argument)
    } else {
        computed(kind, texts(args), now)
    }
}

/// The value made of a time's text, where there is one.
fn timed_value(text: Option<String>) -> (out: Result<Value, ExpansionError>)
    ensures
        match out {
            Ok(value) => text is Some && timed(Some(text->0@)) == Ok::<
                ValueModel,
                ExpansionError,
            >(value@),
            Err(e) => text is None && e == ExpansionError::Argument,
        },
{
    match text {
        Some(text) => Ok(Value::Text(text)),
        None => Err(ExpansionError::Argument),
    }
}

/// The text at position `i` of `args`, or `None` where a flag stands there.
fn text_at(args: &Vec<Value>, i: usize) -> (out: Option<&String>)
    requires
        i < args.len(),
    ensures
        match out {
            Some(text) => args[i as int]@ == ValueModel::Text(text@),
            None => args[i as int]@ is Flag,
        },
{
    match &args[i] {
        Value::Text(text) => Some(text),
        Value::Flag(_) => None,
    }
}

/// Calls helper `kind` on `args` at time `now`.
pub fn apply(kind: HelperKind, args: &Vec<Value>, now: Timestamp) -> (out: Result<
    Value,
    ExpansionError,
>)
    ensures
        match out {
            Ok(value) => applied(kind, value_models(args@), now) == Ok::<
                ValueModel,
                ExpansionError,
            >(value@),
            Err(e) => applied(kind, value_models(args@), now) == Err::<ValueModel, ExpansionError>(
                e,
            ),
        },
{
    let ghost models = value_models(args@);
    if args.len() != kind.parameters() {
        return Err(ExpansionError::Arity);
    }
    let empty = String::new();
    let first: &String = if args.len() > 0 {
        match text_at(args, 0) {
            Some(text) => text,
            None => {
                assert(models[0] is Flag);
                return Err(ExpansionError::Argument);
            },
        }
    } else {
        &empty
    };
    let second: &String = if args.len() > 1 {
        match text_at(args, 1) {
            Some(text) => text,
            None => {
                assert(models[1] is Flag);
                return Err(ExpansionError::Argument);
            },
        }
    } else {
        &empty
    };
    assert(all_text(models));
    let ghost a = texts(models);
    assert(args.len() > 0 ==> a[0] == first@);
    assert(args.len() > 1 ==> a[1] == second@);
    match kind {
        HelperKind::QueryEscape => Ok(Value::Text(escape(EscapeSet::Query, first.as_str()))),
        HelperKind::Encode => Ok(Value::Text(escape(EscapeSet::Component, first.as_str()))),
        HelperKind::PathEscape => Ok(Value::Text(escape(EscapeSet::Path, first.as_str()))),
        HelperKind::TrimPrefix => Ok(Value::Text(trim_prefix(first.as_str(), second.as_str()))),
        HelperKind::TrimSuffix => Ok(Value::Text(trim_suffix(first.as_str(), second.as_str()))),
        HelperKind::ToLower => Ok(Value::Text(to_lowercase(first.as_str()))),
        HelperKind::ToUpper => Ok(Value::Text(to_uppercase(first.as_str()))),
        HelperKind::Now => timed_value(now.to_rfc3339()),
        HelperKind::NowFormat => timed_value(now.format(first.as_str())),
        HelperKind::DateFormat => match Timestamp::parse(first.as_str()) {
            Some(time) => timed_value(time.format(second.as_str())),
            None => Err(ExpansionError::Argument),
        },
        HelperKind::Match => {
            let verdict = regex_match(first.as_str(), second.as_str());
            Ok(Value::Flag(matches!(verdict, Some(true))))
        },
    }
}

/// One name of a helper set.
#[derive(Clone, Debug)]
struct HelperEntry {
    name: Vec<char>,
    kind: HelperKind,
}

/// The names under which patterns can call helpers: a mapping from name to
/// helper, built once and then only read.
#[derive(Clone, Debug)]
pub struct HelperSet {
    entries: Vec<HelperEntry>,
}

/// The mapping that a list of entries stands for: a later entry replaces an
/// earlier one of the same name.
spec fn table(entries: Seq<HelperEntry>) -> Map<Seq<char>, HelperKind>
    decreases entries.len(),
{
    if entries.len() == 0 {
        Map::empty()
    } else {
        table(entries.drop_last()).insert(entries.last().name@, entries.last().kind)
    }
}

impl View for HelperSet {
    type V = Map<Seq<char>, HelperKind>;

    closed spec fn view(&self) -> Map<Seq<char>, HelperKind> {
        table(self.entries@)
    }
}

/// The helpers under the names that patterns use for them.
pub open spec fn standard_helpers() -> Map<Seq<char>, HelperKind> {
    Map::<Seq<char>, HelperKind>::empty().insert("query_escape"@, HelperKind::QueryEscape).insert(
        "encode"@,
        HelperKind::Encode,
    ).insert("path_escape"@, HelperKind::PathEscape).insert(
        "lowercase"@,
        HelperKind::ToLower,
    ).insert("to_lower"@, HelperKind::ToLower).insert("uppercase"@, HelperKind::ToUpper).insert(
        "to_upper"@,
        HelperKind::ToUpper,
    ).insert("trimsuffix"@, HelperKind::TrimSuffix).insert(
        "trim_suffix"@,
        HelperKind::TrimSuffix,
    ).insert("trimprefix"@, HelperKind::TrimPrefix).insert(
        "trim_prefix"@,
        HelperKind::TrimPrefix,
    ).insert("now"@, HelperKind::Now).insert("nowformat"@, HelperKind::NowFormat).insert(
        "now_format"@,
        HelperKind::NowFormat,
    ).insert("dateformat"@, HelperKind::DateFormat).insert(
        "date_format"@,
        HelperKind::DateFormat,
    ).insert("match"@, HelperKind::Match)
}

/// No standard helper has the name `path`: in a pattern, `path` stands for
/// the remainder of the request.
pub proof fn lemma_path_is_no_helper()
    ensures
        !standard_helpers().contains_key("path"@),
{
    reveal_strlit("path");
    reveal_strlit("query_escape");
    reveal_strlit("encode");
    reveal_strlit("path_escape");
    reveal_strlit("lowercase");
    reveal_strlit("to_lower");
    reveal_strlit("uppercase");
    reveal_strlit("to_upper");
    reveal_strlit("trimsuffix");
    reveal_strlit("trim_suffix");
    reveal_strlit("trimprefix");
    reveal_strlit("trim_prefix");
    reveal_strlit("now");
    reveal_strlit("nowformat");
    reveal_strlit("now_format");
    reveal_strlit("dateformat");
    reveal_strlit("date_format");
    reveal_strlit("match");
    let name = "path"@;
    assert(name.len() == 4);
    assert("query_escape"@.len() == 12);
    assert("encode"@.len() == 6);
    assert("path_escape"@.len() == 11);
    assert("lowercase"@.len() == 9);
    assert("to_lower"@.len() == 8);
    assert("uppercase"@.len() == 9);
    assert("to_upper"@.len() == 8);
    assert("trimsuffix"@.len() == 10);
    assert("trim_suffix"@.len() == 11);
    assert("trimprefix"@.len() == 10);
    assert("trim_prefix"@.len() == 11);
    assert("now"@.len() == 3);
    assert("nowformat"@.len() == 9);
    assert("now_format"@.len() == 10);
    assert("dateformat"@.len() == 10);
    assert("date_format"@.len() == 11);
    assert("match"@.len() == 5);
}

impl HelperSet {
    /// A set without names.
    pub fn new() -> (set: HelperSet)
        ensures
            set@ == Map::<Seq<char>, HelperKind>::empty(),
    {
        HelperSet { entries: Vec::new() }
    }

    /// Makes `name` stand for `kind`, whatever it stood for before.
    pub fn register(&mut self, name: &str, kind: HelperKind)
        ensures
            final(self)@ == old(self)@.insert(name@, kind),
    {
        let entry = HelperEntry { name: to_chars(name), kind };
        self.entries.push(entry);
        assert(self.entries@.drop_last() =~= old(self).entries@);
    }

    /// The helper that `name` stands for.
    pub fn lookup(&self, name: &Vec<char>) -> (kind: Option<HelperKind>)
        ensures
            kind == if self@.contains_key(name@) {
                Some(self@[name@])
            } else {
                None
            },
    {
        let mut i: usize = self.entries.len();
        assert(self.entries@.take(i as int) =~= self.entries@);
        while i > 0
            invariant
                i <= self.entries.len(),
                self@.contains_key(name@) == table(self.entries@.take(i as int)).contains_key(
                    name@,
                ),
                self@.contains_key(name@) ==> self@[name@] == table(
                    self.entries@.take(i as int),
                )[name@],
            decreases i,
        {
            i -= 1;
            assert(self.entries@.take(i + 1).drop_last() =~= self.entries@.take(i as int));
            if same_chars(&self.entries[i].name, name) {
                return Some(self.entries[i].kind);
            }
        }
        None
    }

    /// The helpers under the names that patterns use for them.
    pub fn standard() -> (set: HelperSet)
        ensures
            set@ == standard_helpers(),
    {
        let mut set = HelperSet::new();
        set.register("query_escape", HelperKind::QueryEscape);
        set.register("encode", HelperKind::Encode);
        set.register("path_escape", HelperKind::PathEscape);
        set.register("lowercase", HelperKind::ToLower);
        set.register("to_lower", HelperKind::ToLower);
        set.register("uppercase", HelperKind::ToUpper);
        set.register("to_upper", HelperKind::ToUpper);
        set.register("trimsuffix", HelperKind::TrimSuffix);
        set.register("trim_suffix", HelperKind::TrimSuffix);
        set.register("trimprefix", HelperKind::TrimPrefix);
        set.register("trim_prefix", HelperKind::TrimPrefix);
        set.register("now", HelperKind::Now);
        set.register("nowformat", HelperKind::NowFormat);
        set.register("now_format", HelperKind::NowFormat);
        set.register("dateformat", HelperKind::DateFormat);
        set.register("date_format", HelperKind::DateFormat);
        set.register("match", HelperKind::Match);
        set
    }
}

} // verus!
