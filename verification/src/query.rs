//! The query parameters of a request, and how they are folded into an
//! expanded URL.

use crate::escape::{
    decoded, encoded, escape, lemma_component_chars, lemma_component_round_trip, EscapeSet,
};
use crate::helpers::ExpansionError;
use crate::text::{
    contains_text, find, first_occurrence, lemma_first_occurrence, lemma_first_occurrence_is,
    occurs_at, to_chars,
};
use vstd::prelude::*;
use vstd::string::*;
use vstd::utf8::*;

verus! {

/// The position of the first pair from `from` on whose key is `key`.
pub open spec fn key_index(pairs: Seq<(Seq<char>, Seq<char>)>, key: Seq<char>, from: int) -> Option<
    int,
>
    decreases pairs.len() - from,
{
    if from < 0 || from >= pairs.len() {
        None
    } else if pairs[from].0 == key {
        Some(from)
    } else {
        key_index(pairs, key, from + 1)
    }
}

/// No two pairs have the same key.
pub open spec fn distinct_keys(pairs: Seq<(Seq<char>, Seq<char>)>) -> bool {
    forall|i: int, j: int| 0 <= i < j < pairs.len() ==> pairs[i].0 != pairs[j].0
}

/// `pairs` after `key` has been given `value`: the pair of that key holds the
/// new value where there is one, else a new pair stands at the end.
pub open spec fn with_pair(
    pairs: Seq<(Seq<char>, Seq<char>)>,
    key: Seq<char>,
    value: Seq<char>,
) -> Seq<(Seq<char>, Seq<char>)> {
    match key_index(pairs, key, 0) {
        Some(at) => pairs.update(at, (key, value)),
        None => pairs.push((key, value)),
    }
}

/// What `key_index` finds holds the key, and it finds nothing only where no
/// pair from `from` on holds it.
pub proof fn lemma_key_index(pairs: Seq<(Seq<char>, Seq<char>)>, key: Seq<char>, from: int)
    requires
        0 <= from,
    ensures
        match key_index(pairs, key, from) {
            Some(at) => from <= at < pairs.len() && pairs[at].0 == key,
            None => forall|i: int| from <= i < pairs.len() ==> pairs[i].0 != key,
        },
    decreases pairs.len() - from,
{
    if from < pairs.len() && pairs[from].0 != key {
        lemma_key_index(pairs, key, from + 1);
    }
}

/// The query parameters of a request: keys with their values, in the order
/// in which the keys were first given. Built with `new` and `insert`, it
/// holds each key once.
#[derive(Clone, Debug)]
pub struct QueryParams {
    entries: Vec<(String, String)>,
}

impl View for QueryParams {
    type V = Seq<(Seq<char>, Seq<char>)>;

    closed spec fn view(&self) -> Seq<(Seq<char>, Seq<char>)> {
        Seq::new(self.entries@.len(), |i: int| (self.entries@[i].0@, self.entries@[i].1@))
    }
}

impl QueryParams {
    /// No parameters.
    pub fn new() -> (params: QueryParams)
        ensures
            params@ == Seq::<(Seq<char>, Seq<char>)>::empty(),
    {
        let params = QueryParams { entries: Vec::new() };
        assert(params@ =~= Seq::<(Seq<char>, Seq<char>)>::empty());
        params
    }

    /// The number of parameters.
    pub fn len(&self) -> (n: usize)
        ensures
            n == self@.len(),
    {
        self.entries.len()
    }

    /// Whether there is no parameter.
    pub fn is_empty(&self) -> (r: bool)
        ensures
            r == (self@.len() == 0),
    {
        self.entries.len() == 0
    }

    /// The position of the parameter with key `key`.
    fn position(&self, key: &String) -> (at: Option<usize>)
        ensures
            match at {
                Some(at) => key_index(self@, key@, 0) == Some(at as int) && at < self@.len(),
                None => key_index(self@, key@, 0) is None,
            },
    {
        let mut i: usize = 0;
        while i < self.entries.len()
            invariant
                i <= self.entries.len(),
                key_index(self@, key@, 0) == key_index(self@, key@, i as int),
            decreases self.entries.len() - i,
        {
            if self.entries[i].0 == *key {
                return Some(i);
            }
            i += 1;
        }
        None
    }

    /// The value of the parameter with key `key`.
    pub fn get(&self, key: &String) -> (value: Option<&String>)
        ensures
            match value {
                Some(value) => key_index(self@, key@, 0) matches Some(at) && self@[at].1
                    == value@,
                None => key_index(self@, key@, 0) is None,
            },
    {
        match self.position(key) {
            Some(at) => Some(&self.entries[at].1),
            None => None,
        }
    }

    /// Gives `key` the value `value`, and returns the value it had. Keys that
    /// were distinct stay so.
    pub fn insert(&mut self, key: String, value: String) -> (before: Option<String>)
        ensures
            final(self)@ == with_pair(old(self)@, key@, value@),
            distinct_keys(old(self)@) ==> distinct_keys(final(self)@),
            match before {
                Some(before) => key_index(old(self)@, key@, 0) matches Some(at) && old(self)@[at].1
                    == before@,
                None => key_index(old(self)@, key@, 0) is None,
            },
    {
        proof {
            lemma_key_index(self@, key@, 0);
        }
        let ghost pairs = self@;
        match self.position(&key) {
            Some(at) => {
                let before = self.entries[at].1.clone();
                let ghost k = key@;
                let ghost v = value@;
                self.entries.set(at, (key, value));
                assert(self@ =~= pairs.update(at as int, (k, v)));
                Some(before)
            },
            None => {
                let ghost k = key@;
                let ghost v = value@;
                self.entries.push((key, value));
                assert(self@ =~= pairs.push((k, v)));
                None
            },
        }
    }
}

/// One parameter as it stands in a query string: key and value, each
/// percent-encoded as a component, with `=` between them.
pub open spec fn pair_text(pair: (Seq<char>, Seq<char>)) -> Seq<char> {
    encoded(EscapeSet::Component, pair.0) + seq!['='] + encoded(EscapeSet::Component, pair.1)
}

/// The parameters as a query string: the pairs in order, with `&` between
/// them.
pub open spec fn query_text(pairs: Seq<(Seq<char>, Seq<char>)>) -> Seq<char>
    decreases pairs.len(),
{
    if pairs.len() == 0 {
        Seq::empty()
    } else if pairs.len() == 1 {
        pair_text(pairs[0])
    } else {
        query_text(pairs.drop_last()) + seq!['&'] + pair_text(pairs.last())
    }
}

/// `?`, which starts a query string.
pub open spec fn query_mark() -> Seq<char> {
    seq!['?']
}

/// `expanded` with the parameters appended: after `&` where `expanded` holds
/// a `?` already, else after `?`; `expanded` itself where there are none.
pub open spec fn merged(expanded: Seq<char>, pairs: Seq<(Seq<char>, Seq<char>)>) -> Seq<char> {
    if pairs.len() == 0 {
        expanded
    } else if contains_text(expanded, query_mark()) {
        expanded + seq!['&'] + query_text(pairs)
    } else {
        expanded + seq!['?'] + query_text(pairs)
    }
}

/// The canonical text of the URL that `text` denotes, or `None` where it
/// denotes no absolute URL.
pub uninterp spec fn parsed_url(text: Seq<char>) -> Option<Seq<char>>;

/// `url::ParseError`: why a text is no URL. Nothing is known of its values.
#[verifier::external_type_specification]
#[verifier::external_body]
pub struct ExParseError(url::ParseError);

/// `url::Url::parse`, and the text of the URL it gives: whether the text
/// parses, and what the URL then reads, depends on the text alone.
#[verifier::external_body]
pub(crate) fn parse_url(text: &str) -> (out: Result<String, url::ParseError>)
    ensures
        match out {
            Ok(url) => parsed_url(text@) == Some(url@),
            Err(_) => parsed_url(text@) is None,
        },
{
    match url::Url::parse(text) {
        Ok(url) => Ok(String::from(url)),
        Err(e) => Err(e),
    }
}

/// The URL that `merged` denotes, or the error of a text that is no URL.
pub open spec fn url_of(merged: Seq<char>) -> Result<Seq<char>, ExpansionError> {
    match parsed_url(merged) {
        Some(url) => Ok(url),
        None => Err(ExpansionError::InvalidUrl),
    }
}

/// The parameters as a query string.
pub fn query_string(params: &QueryParams) -> (out: String)
    ensures
        out@ == query_text(params@),
{
    let mut out = String::new();
    let mut i: usize = 0;
    assert(params@.take(0) =~= Seq::<(Seq<char>, Seq<char>)>::empty());
    while i < params.entries.len()
        invariant
            i <= params.entries.len(),
            params@.len() == params.entries.len(),
            out@ == query_text(params@.take(i as int)),
        decreases params.entries.len() - i,
    {
        let ghost done = params@.take(i as int);
        let ghost next = params@.take(i + 1);
        assert(next.drop_last() =~= done);
        assert(next.last() == (params.entries@[i as int].0@, params.entries@[i as int].1@));
        if i > 0 {
            out.push('&');
        }
        let key = escape(EscapeSet::Component, params.entries[i].0.as_str());
        let value = escape(EscapeSet::Component, params.entries[i].1.as_str());
        out.append(key.as_str());
        out.push('=');
        out.append(value.as_str());
        assert(out@ =~= query_text(next)) by {
            assert(pair_text(next.last()) =~= key@ + seq!['='] + value@);
            if i > 0 {
                assert(out@ =~= query_text(done) + seq!['&'] + pair_text(next.last()));
            } else {
                assert(done.len() == 0);
                assert(out@ =~= pair_text(next.last()));
            }
        }
        i += 1;
    }
    assert(params@.take(params.entries.len() as int) =~= params@);
    out
}

/// Appends the parameters to `expanded`.
pub fn merged_text(expanded: &str, params: &QueryParams) -> (out: String)
    ensures
        out@ == merged(expanded@, params@),
{
    let mut out = expanded.to_owned();
    if params.is_empty() {
        return out;
    }
    let chars = to_chars(expanded);
    let mut mark: Vec<char> = Vec::new();
    mark.push('?');
    assert(mark@ =~= query_mark());
    match find(&chars, &mark, 0) {
        Some(_) => out.push('&'),
        None => out.push('?'),
    }
    let query = query_string(params);
    out.append(query.as_str());
    assert(out@ =~= merged(expanded@, params@));
    out
}

/// Reads `text` as a URL.
pub fn read_url(text: &str) -> (out: Result<String, ExpansionError>)
    ensures
        match out {
            Ok(url) => url_of(text@) == Ok::<Seq<char>, ExpansionError>(url@),
            Err(e) => url_of(text@) == Err::<Seq<char>, ExpansionError>(e),
        },
{
    match parse_url(text) {
        Ok(url) => Ok(url),
        Err(_) => Err(ExpansionError::InvalidUrl),
    }
}

/// Folds the parameters into `expanded` and reads the result as a URL.
pub fn merge(expanded: &str, params: &QueryParams) -> (out: Result<String, ExpansionError>)
    ensures
        match out {
            Ok(url) => url_of(merged(expanded@, params@)) == Ok::<Seq<char>, ExpansionError>(
                url@,
            ),
            Err(e) => url_of(merged(expanded@, params@)) == Err::<Seq<char>, ExpansionError>(e),
        },
{
    let text = merged_text(expanded, params);
    read_url(text.as_str())
}

/// The position of the last `c` in `text`.
pub open spec fn last_index(text: Seq<char>, c: char) -> Option<int>
    decreases text.len(),
{
    if text.len() == 0 {
        None
    } else if text.last() == c {
        Some(text.len() - 1)
    } else {
        last_index(text.drop_last(), c)
    }
}

/// `=`, which separates a key from its value.
pub open spec fn equals_mark() -> Seq<char> {
    seq!['=']
}

/// The parameter that `text` stands for: the key before the first `=` and
/// the value after it, each read back from its percent-encoding; a key with
/// an empty value where `text` holds no `=`.
pub open spec fn decoded_pair(text: Seq<char>) -> Option<(Seq<char>, Seq<char>)> {
    match first_occurrence(text, equals_mark(), 0) {
        Some(at) => match (
            decoded(text.subrange(0, at)),
            decoded(text.subrange(at + 1, text.len() as int)),
        ) {
            (Some(key), Some(value)) => Some((key, value)),
            _ => None,
        },
        None => match decoded(text) {
            Some(key) => Some((key, Seq::empty())),
            None => None,
        },
    }
}

/// The last `c` of a text stands within the text.
pub proof fn lemma_last_index(text: Seq<char>, c: char)
    ensures
        last_index(text, c) matches Some(at) ==> 0 <= at < text.len() && text[at] == c,
        last_index(text, c) is None ==> !text.contains(c),
    decreases text.len(),
{
    if text.len() > 0 && text.last() != c {
        lemma_last_index(text.drop_last(), c);
        if text.contains(c) {
            let j = choose|j: int| 0 <= j < text.len() && text[j] == c;
            assert(text.drop_last()[j] == c);
        }
    }
}

/// The parameters that a query string stands for: the pairs between its
/// `&`s, in order; `None` where one of them is no pair.
pub open spec fn decoded_query(text: Seq<char>) -> Option<Seq<(Seq<char>, Seq<char>)>>
    decreases text.len(),
{
    if text.len() == 0 {
        Some(Seq::empty())
    } else {
        match last_index(text, '&') {
            None => match decoded_pair(text) {
                Some(pair) => Some(seq![pair]),
                None => None,
            },
            Some(at) => {
                proof {
                    lemma_last_index(text, '&');
                }
                match (
                    decoded_query(text.subrange(0, at)),
                    decoded_pair(text.subrange(at + 1, text.len() as int)),
                ) {
                    (Some(head), Some(pair)) => Some(head.push(pair)),
                    _ => None,
                }
            },
        }
    }
}

/// What follows the first `?` of `text`: its query string. Nothing where it
/// holds no `?`.
pub open spec fn query_of(text: Seq<char>) -> Seq<char> {
    match first_occurrence(text, query_mark(), 0) {
        Some(at) => text.subrange(at + 1, text.len() as int),
        None => Seq::empty(),
    }
}

/// An encoded component holds neither `=` nor `&`.
pub proof fn lemma_component_has_no_separator(text: Seq<char>)
    ensures
        !encoded(EscapeSet::Component, text).contains('='),
        !encoded(EscapeSet::Component, text).contains('&'),
{
    lemma_component_chars(encode_utf8(text));
}

/// The last `c` of a text whose part after a `c` holds none is that `c`.
pub proof fn lemma_last_index_is(head: Seq<char>, c: char, tail: Seq<char>)
    requires
        !tail.contains(c),
    ensures
        last_index(head + seq![c] + tail, c) == Some(head.len() as int),
    decreases tail.len(),
{
    let text = head + seq![c] + tail;
    if tail.len() == 0 {
        assert(text.last() == c);
    } else {
        assert(tail[tail.len() - 1] != c);
        assert(text.last() == tail.last());
        assert(text.drop_last() =~= head + seq![c] + tail.drop_last());
        if tail.drop_last().contains(c) {
            let j = choose|j: int| 0 <= j < tail.drop_last().len() && tail.drop_last()[j] == c;
            assert(tail[j] == c);
        }
        lemma_last_index_is(head, c, tail.drop_last());
    }
}

/// A parameter is read back from its text as it was.
pub proof fn lemma_pair_round_trip(pair: (Seq<char>, Seq<char>))
    ensures
        decoded_pair(pair_text(pair)) == Some(pair),
        !pair_text(pair).contains('&'),
        pair_text(pair).len() > 0,
{
    let key = encoded(EscapeSet::Component, pair.0);
    let value = encoded(EscapeSet::Component, pair.1);
    let text = pair_text(pair);
    lemma_component_has_no_separator(pair.0);
    lemma_component_has_no_separator(pair.1);
    lemma_component_round_trip(pair.0);
    lemma_component_round_trip(pair.1);
    assert(text[key.len() as int] == '=');
    assert(text.subrange(key.len() as int, key.len() as int + 1) =~= equals_mark());
    assert forall|j: int| 0 <= j < key.len() implies !occurs_at(text, equals_mark(), j) by {
        if occurs_at(text, equals_mark(), j) {
            assert(text.subrange(j, j + 1)[0] == '=');
            assert(key[j] == '=');
        }
    }
    lemma_first_occurrence_is(text, equals_mark(), 0, key.len() as int);
    assert(text.subrange(0, key.len() as int) =~= key);
    assert(text.subrange(key.len() as int + 1, text.len() as int) =~= value);
    if text.contains('&') {
        let j = choose|j: int| 0 <= j < text.len() && text[j] == '&';
        if j < key.len() {
            assert(key[j] == '&');
        } else if j > key.len() {
            assert(value[j - key.len() - 1] == '&');
        }
    }
}

/// The parameters of a query string that was made of them are read back as
/// they were, in their order.
pub proof fn lemma_query_round_trip(pairs: Seq<(Seq<char>, Seq<char>)>)
    ensures
        decoded_query(query_text(pairs)) == Some(pairs),
    decreases pairs.len(),
{
    if pairs.len() == 0 {
        assert(pairs =~= Seq::<(Seq<char>, Seq<char>)>::empty());
    } else if pairs.len() == 1 {
        let text = pair_text(pairs[0]);
        lemma_pair_round_trip(pairs[0]);
        lemma_last_index(text, '&');
        assert(seq![pairs[0]] =~= pairs);
    } else {
        lemma_query_after(Seq::empty(), pairs.drop_last(), pairs.last());
        lemma_query_round_trip(pairs.drop_last());
        let head = query_text(pairs.drop_last());
        assert(Seq::<char>::empty() + head =~= head);
        assert(pairs.drop_last().push(pairs.last()) =~= pairs);
    }
}

/// A query string with `&` and one more parameter after it stands for its
/// parameters and that one.
pub proof fn lemma_query_after(
    before: Seq<char>,
    pairs: Seq<(Seq<char>, Seq<char>)>,
    last: (Seq<char>, Seq<char>),
)
    ensures
        decoded_query(before + query_text(pairs) + seq!['&'] + pair_text(last)) == match decoded_query(
            before + query_text(pairs),
        ) {
            Some(head) => Some(head.push(last)),
            None => None,
        },
{
    let head = before + query_text(pairs);
    let text = head + seq!['&'] + pair_text(last);
    lemma_pair_round_trip(last);
    lemma_last_index_is(head, '&', pair_text(last));
    assert(text.subrange(0, head.len() as int) =~= head);
    assert(text.subrange(head.len() as int + 1, text.len() as int) =~= pair_text(last));
}

/// Where further parameters are appended to a query string after `&`, the
/// string stands for the parameters it stood for and then the further ones.
pub proof fn lemma_query_appended(before: Seq<char>, pairs: Seq<(Seq<char>, Seq<char>)>)
    requires
        pairs.len() > 0,
    ensures
        decoded_query(before + seq!['&'] + query_text(pairs)) == match decoded_query(before) {
            Some(head) => Some(head + pairs),
            None => None,
        },
    decreases pairs.len(),
{
    if pairs.len() == 1 {
        lemma_query_after(before, Seq::empty(), pairs[0]);
        assert(query_text(Seq::<(Seq<char>, Seq<char>)>::empty()) =~= Seq::<char>::empty());
        assert(before + Seq::<char>::empty() =~= before);
        assert(query_text(pairs) == pair_text(pairs[0]));
        match decoded_query(before) {
            Some(head) => {
                assert(head.push(pairs[0]) =~= head + pairs);
            },
            None => {},
        }
    } else {
        let init = pairs.drop_last();
        let led = before + seq!['&'];
        lemma_query_appended(before, init);
        lemma_query_after(led, init, pairs.last());
        assert(led + query_text(init) + seq!['&'] + pair_text(pairs.last()) =~= before + seq![
            '&',
        ] + query_text(pairs));
        match decoded_query(before) {
            Some(head) => {
                assert((head + init).push(pairs.last()) =~= head + pairs);
            },
            None => {},
        }
    }
}

/// The query string of a text to which parameters were merged stands for
/// the parameters that the text's own query string stood for, and then the
/// merged ones. For a text without `?` these are the merged ones alone.
pub proof fn lemma_merged_round_trip(expanded: Seq<char>, pairs: Seq<(Seq<char>, Seq<char>)>)
    requires
        pairs.len() > 0,
    ensures
        decoded_query(query_of(merged(expanded, pairs))) == match decoded_query(
            query_of(expanded),
        ) {
            Some(own) => Some(own + pairs),
            None => None,
        },
        !contains_text(expanded, query_mark()) ==> decoded_query(
            query_of(merged(expanded, pairs)),
        ) == Some(pairs),
{
    let text = merged(expanded, pairs);
    lemma_first_occurrence(expanded, query_mark(), 0);
    match first_occurrence(expanded, query_mark(), 0) {
        Some(at) => {
            assert(occurs_at(text, query_mark(), at)) by {
                assert(text.subrange(at, at + 1) =~= expanded.subrange(at, at + 1));
            }
            assert forall|j: int| 0 <= j < at implies !occurs_at(text, query_mark(), j) by {
                assert(!occurs_at(expanded, query_mark(), j));
                assert(text.subrange(j, j + 1) =~= expanded.subrange(j, j + 1));
            }
            lemma_first_occurrence_is(text, query_mark(), 0, at);
            let own = expanded.subrange(at + 1, expanded.len() as int);
            assert(query_of(text) =~= own + seq!['&'] + query_text(pairs));
            lemma_query_appended(own, pairs);
        },
        None => {
            let at = expanded.len() as int;
            assert(occurs_at(text, query_mark(), at)) by {
                assert(text.subrange(at, at + 1) =~= query_mark());
            }
            assert forall|j: int| 0 <= j < at implies !occurs_at(text, query_mark(), j) by {
                assert(!occurs_at(expanded, query_mark(), j));
                assert(text.subrange(j, j + 1) =~= expanded.subrange(j, j + 1));
            }
            lemma_first_occurrence_is(text, query_mark(), 0, at);
            assert(query_of(text) =~= query_text(pairs));
            lemma_query_round_trip(pairs);
            assert(Seq::<(Seq<char>, Seq<char>)>::empty() + pairs =~= pairs);
        },
    }
}

} // verus!
