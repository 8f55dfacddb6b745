//! Conversions between strings and character sequences, and searching in
//! character sequences.

use vstd::prelude::*;

verus! {

/// `String::push` appends one character to the end of the string.
pub assume_specification[ String::push ](s: &mut String, c: char)
    ensures
        final(s)@ == old(s)@.push(c),
;

/// The characters of `s`, in order.
pub fn to_chars(s: &str) -> (out: Vec<char>)
    ensures
        out@ == s@,
{
    let mut out: Vec<char> = Vec::new();
    for c in it: s.chars()
        invariant
            out@ == it.seq().take(it.index() as int),
            it.seq() == s@,
    {
        out.push(c);
    }
    out
}

/// The string made of `chars[from..to]`.
pub(crate) fn to_text(chars: &Vec<char>, from: usize, to: usize) -> (out: String)
    requires
        from <= to <= chars.len(),
    ensures
        out@ == chars@.subrange(from as int, to as int),
{
    let mut out = String::new();
    let mut i: usize = from;
    while i < to
        invariant
            from <= i <= to <= chars.len(),
            out@ == chars@.subrange(from as int, i as int),
        decreases to - i,
    {
        out.push(chars[i]);
        i += 1;
    }
    out
}

/// Appends `chars[from..to]` to `out`.
pub(crate) fn push_range(out: &mut Vec<char>, chars: &Vec<char>, from: usize, to: usize)
    requires
        from <= to <= chars.len(),
    ensures
        final(out)@ == old(out)@ + chars@.subrange(from as int, to as int),
{
    let mut i: usize = from;
    while i < to
        invariant
            from <= i <= to <= chars.len(),
            out@ == old(out)@ + chars@.subrange(from as int, i as int),
        decreases to - i,
    {
        out.push(chars[i]);
        i += 1;
    }
}

/// `needle` stands in `hay` at position `at`.
pub open spec fn occurs_at(hay: Seq<char>, needle: Seq<char>, at: int) -> bool {
    &&& 0 <= at
    &&& at + needle.len() <= hay.len()
    &&& hay.subrange(at, at + needle.len()) == needle
}

/// The least position at or after `from` at which `needle` stands in `hay`.
pub open spec fn first_occurrence(hay: Seq<char>, needle: Seq<char>, from: int) -> Option<int>
    decreases hay.len() - from + 1,
{
    if from < 0 || from + needle.len() > hay.len() {
        None
    } else if occurs_at(hay, needle, from) {
        Some(from)
    } else {
        first_occurrence(hay, needle, from + 1)
    }
}

/// `needle` stands somewhere in `hay`.
pub open spec fn contains_text(hay: Seq<char>, needle: Seq<char>) -> bool {
    first_occurrence(hay, needle, 0) is Some
}

/// What `first_occurrence` finds is an occurrence, and nothing between `from`
/// and it is one; where it finds nothing, there is none from `from` on.
pub proof fn lemma_first_occurrence(hay: Seq<char>, needle: Seq<char>, from: int)
    requires
        0 <= from,
    ensures
        match first_occurrence(hay, needle, from) {
            Some(at) => {
                &&& from <= at
                &&& occurs_at(hay, needle, at)
                &&& forall|j: int| from <= j < at ==> !occurs_at(hay, needle, j)
            },
            None => forall|j: int| from <= j ==> !occurs_at(hay, needle, j),
        },
    decreases hay.len() - from + 1,
{
    if from + needle.len() > hay.len() {
    } else if occurs_at(hay, needle, from) {
    } else {
        lemma_first_occurrence(hay, needle, from + 1);
    }
}

/// An occurrence with none between `from` and it is the first from `from` on.
pub proof fn lemma_first_occurrence_is(hay: Seq<char>, needle: Seq<char>, from: int, at: int)
    requires
        0 <= from <= at,
        occurs_at(hay, needle, at),
        forall|j: int| from <= j < at ==> !occurs_at(hay, needle, j),
    ensures
        first_occurrence(hay, needle, from) == Some(at),
    decreases at - from,
{
    if from < at {
        lemma_first_occurrence_is(hay, needle, from + 1, at);
    }
}

/// Whether `needle` stands in `hay` at `at`.
pub fn stands_at(hay: &Vec<char>, needle: &Vec<char>, at: usize) -> (r: bool)
    ensures
        r == occurs_at(hay@, needle@, at as int),
{
    if needle.len() > hay.len() || at > hay.len() - needle.len() {
        return false;
    }
    let mut k: usize = 0;
    while k < needle.len()
        invariant
            k <= needle.len(),
            at + needle.len() <= hay.len(),
            forall|j: int| 0 <= j < k ==> hay@[at + j] == needle@[j],
        decreases needle.len() - k,
    {
        if hay[at + k] != needle[k] {
            assert(hay@.subrange(at as int, at + needle.len())[k as int] != needle@[k as int]);
            return false;
        }
        k += 1;
    }
    assert(hay@.subrange(at as int, at + needle.len()) =~= needle@);
    true
}

/// The first position at or after `from` at which `needle` stands in `hay`.
pub fn find(hay: &Vec<char>, needle: &Vec<char>, from: usize) -> (r: Option<usize>)
    ensures
        match r {
            Some(at) => first_occurrence(hay@, needle@, from as int) == Some(at as int),
            None => first_occurrence(hay@, needle@, from as int) is None,
        },
        match r {
            Some(at) => {
                &&& from <= at
                &&& at + needle.len() <= hay.len()
                &&& occurs_at(hay@, needle@, at as int)
                &&& forall|j: int| from <= j < at ==> !occurs_at(hay@, needle@, j)
            },
            None => forall|j: int| from <= j ==> !occurs_at(hay@, needle@, j),
        },
{
    proof {
        lemma_first_occurrence(hay@, needle@, from as int);
    }
    if needle.len() > hay.len() || from > hay.len() - needle.len() {
        return None;
    }
    let last: usize = hay.len() - needle.len();
    let mut i: usize = from;
    loop
        invariant
            from <= i <= last,
            last == hay.len() - needle.len(),
            needle.len() <= hay.len(),
            first_occurrence(hay@, needle@, from as int) == first_occurrence(
                hay@,
                needle@,
                i as int,
            ),
        decreases last - i,
    {
        if stands_at(hay, needle, i) {
            proof {
                lemma_first_occurrence(hay@, needle@, from as int);
            }
            return Some(i);
        }
        if i == last {
            proof {
                lemma_first_occurrence(hay@, needle@, from as int);
                assert(first_occurrence(hay@, needle@, i + 1) is None);
            }
            return None;
        }
        i += 1;
    }
}

/// Whether the two sequences hold the same characters.
pub fn same_chars(a: &Vec<char>, b: &Vec<char>) -> (r: bool)
    ensures
        r == (a@ == b@),
{
    if a.len() != b.len() {
        return false;
    }
    let mut k: usize = 0;
    while k < a.len()
        invariant
            k <= a.len(),
            a.len() == b.len(),
            forall|j: int| 0 <= j < k ==> a@[j] == b@[j],
        decreases a.len() - k,
    {
        if a[k] != b[k] {
            return false;
        }
        k += 1;
    }
    assert(a@ =~= b@);
    true
}

} // verus!
