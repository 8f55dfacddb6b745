//! Percent-encoding of text for the parts of a URL.
//!
//! The encoders work on the UTF-8 bytes of a text: a byte that the set in use
//! keeps is written as it is, any other byte as `%` and two upper-case
//! hexadecimal digits.

use vstd::prelude::*;
use vstd::utf8::*;

verus! {

/// The three sets of bytes that the encoders leave as they are.
#[derive(Clone, Copy, Debug, PartialEq, Eq, Structural)]
pub enum EscapeSet {
    /// A single component (a key, a value, a short code): letters, digits and `-._~`.
    Component,
    /// A query string: printable ASCII but space, `"`, `#`, `<` and `>`.
    Query,
    /// A path: as for a query, and without `?`, `^`, `` ` ``, `{` and `}`.
    Path,
}

/// `b` is an ASCII letter or digit.
pub open spec fn is_alphanumeric(b: u8) -> bool {
    ||| 0x30 <= b <= 0x39
    ||| 0x41 <= b <= 0x5a
    ||| 0x61 <= b <= 0x7a
}

/// `b` is printable ASCII and none of space, `"`, `#`, `<`, `>`.
pub open spec fn is_query_safe(b: u8) -> bool {
    0x20 < b < 0x7f && b != 0x22 && b != 0x23 && b != 0x3c && b != 0x3e
}

impl EscapeSet {
    /// Whether byte `b` is written as it is.
    pub open spec fn keeps(self, b: u8) -> bool {
        match self {
            EscapeSet::Component => is_alphanumeric(b) || b == 0x2d || b == 0x2e || b == 0x5f || b
                == 0x7e,
            EscapeSet::Query => is_query_safe(b),
            EscapeSet::Path => is_query_safe(b) && b != 0x3f && b != 0x5e && b != 0x60 && b != 0x7b
                && b != 0x7d,
        }
    }
}

/// The upper-case hexadecimal digit for `n`, where `0 <= n < 16`.
pub open spec fn hex_digit(n: int) -> char {
    if n < 10 {
        (0x30 + n) as u8 as char
    } else {
        (0x37 + n) as u8 as char
    }
}

/// What stands for byte `b` in an encoded text.
pub open spec fn encoded_byte(set: EscapeSet, b: u8) -> Seq<char> {
    if set.keeps(b) {
        seq![b as char]
    } else {
        seq!['%', hex_digit(b as int / 16), hex_digit(b as int % 16)]
    }
}

/// The encoding of a sequence of bytes: each byte's encoding, in order.
pub open spec fn encoded_bytes(set: EscapeSet, bytes: Seq<u8>) -> Seq<char>
    decreases bytes.len(),
{
    if bytes.len() == 0 {
        Seq::empty()
    } else {
        encoded_bytes(set, bytes.drop_last()) + encoded_byte(set, bytes.last())
    }
}

/// The encoding of a text: that of its UTF-8 bytes.
pub open spec fn encoded(set: EscapeSet, text: Seq<char>) -> Seq<char> {
    encoded_bytes(set, encode_utf8(text))
}

/// `urlencoding::encode`: every byte of the text's UTF-8 form is kept if it is
/// an ASCII letter, a digit or one of `-`, `.`, `_`, `~`, and is otherwise
/// written as `%` and two upper-case hexadecimal digits.
#[verifier::external_body]
pub(crate) fn encode_component(text: &str) -> (out: String)
    ensures
        out@ == encoded(EscapeSet::Component, text@),
{
    urlencoding::encode(text).into_owned()
}

/// `url_escape::encode_query`: every byte of the text's UTF-8 form is written
/// as `%` and two upper-case hexadecimal digits if it is a control character,
/// a space, `"`, `#`, `<`, `>`, DEL or not ASCII, and is otherwise kept.
#[verifier::external_body]
pub(crate) fn encode_query(text: &str) -> (out: String)
    ensures
        out@ == encoded(EscapeSet::Query, text@),
{
    url_escape::encode_query(text).into_owned()
}

/// `url_escape::encode_path`: as `encode_query`, and `?`, `^`, `` ` ``, `{` and
/// `}` are written in the `%` form too.
#[verifier::external_body]
pub(crate) fn encode_path(text: &str) -> (out: String)
    ensures
        out@ == encoded(EscapeSet::Path, text@),
{
    url_escape::encode_path(text).into_owned()
}

/// Percent-encodes `text` with the given set.
pub fn escape(set: EscapeSet, text: &str) -> (out: String)
    ensures
        out@ == encoded(set, text@),
{
    match set {
        EscapeSet::Component => encode_component(text),
        EscapeSet::Query => encode_query(text),
        EscapeSet::Path => encode_path(text),
    }
}

/// `c` is an ASCII letter or digit.
pub open spec fn is_alphanumeric_char(c: char) -> bool {
    ||| '0' <= c <= '9'
    ||| 'A' <= c <= 'Z'
    ||| 'a' <= c <= 'z'
}

/// `c` is one of the marks that a component keeps: `-`, `.`, `_`, `~`.
pub open spec fn is_mark(c: char) -> bool {
    c == '-' || c == '.' || c == '_' || c == '~'
}

/// The UTF-8 form of an ASCII character is the one byte of its number; that
/// of any other character holds bytes above 0x7f only.
pub proof fn lemma_scalar_bytes(c: char)
    ensures
        (c as u32) < 0x80 ==> encode_scalar(c as u32) == seq![c as u8],
        (c as u32) >= 0x80 ==> forall|i: int|
            0 <= i < encode_scalar(c as u32).len() ==> #[trigger] encode_scalar(c as u32)[i]
                >= 0x80,
{
    let v = c as u32;
    if v < 0x80 {
        assert((v & 0x7F) as u8 == v as u8) by (bit_vector)
            requires
                v < 0x80,
        ;
        assert(encode_scalar(v) =~= seq![c as u8]);
    } else {
        assert(0xC0u8 | ((v >> 6) & 0x1F) as u8 >= 0x80) by (bit_vector);
        assert(0xE0u8 | ((v >> 12) & 0x0F) as u8 >= 0x80) by (bit_vector);
        assert(0xF0u8 | ((v >> 18) & 0x7) as u8 >= 0x80) by (bit_vector);
        assert(0x80u8 | (v & 0x3F) as u8 >= 0x80) by (bit_vector);
        assert(0x80u8 | ((v >> 6) & 0x3F) as u8 >= 0x80) by (bit_vector);
        assert(0x80u8 | ((v >> 12) & 0x3F) as u8 >= 0x80) by (bit_vector);
    }
}

/// An ASCII byte in the UTF-8 form of a text is a character of the text.
pub proof fn lemma_ascii_byte_is_char(text: Seq<char>, i: int)
    requires
        0 <= i < encode_utf8(text).len(),
        encode_utf8(text)[i] < 0x80,
    ensures
        text.contains(encode_utf8(text)[i] as char),
    decreases text.len(),
{
    if text.len() > 0 {
        let c = text[0];
        let first = encode_scalar(c as u32);
        let rest = text.drop_first();
        lemma_scalar_bytes(c);
        if i < first.len() {
            assert(encode_utf8(text)[i] == first[i]);
            let u = c as u32;
            let b = c as u8;
            char_u32_cast(c, u);
            assert(b as u32 == u);
            assert(b as char == u as char);
        } else {
            assert(encode_utf8(text)[i] == encode_utf8(rest)[i - first.len()]);
            lemma_ascii_byte_is_char(rest, i - first.len());
            let found = encode_utf8(text)[i] as char;
            let j = choose|j: int| 0 <= j < rest.len() && rest[j] == found;
            assert(text[j + 1] == found);
        }
    }
}

/// The encoding of bytes one after the other is the encoding of the one
/// followed by that of the other.
pub proof fn lemma_encoded_bytes_concat(set: EscapeSet, first: Seq<u8>, second: Seq<u8>)
    ensures
        encoded_bytes(set, first + second) == encoded_bytes(set, first) + encoded_bytes(
            set,
            second,
        ),
    decreases second.len(),
{
    if second.len() == 0 {
        assert(first + second =~= first);
        assert(encoded_bytes(set, first) + encoded_bytes(set, second) =~= encoded_bytes(
            set,
            first,
        ));
    } else {
        assert((first + second).drop_last() =~= first + second.drop_last());
        lemma_encoded_bytes_concat(set, first, second.drop_last());
        assert(encoded_bytes(set, first + second) =~= encoded_bytes(set, first) + encoded_bytes(
            set,
            second,
        ));
    }
}

/// An encoded component holds letters, digits, `%` and the four marks only,
/// and a mark only where the bytes hold it.
pub proof fn lemma_component_chars(bytes: Seq<u8>)
    ensures
        forall|i: int|
            0 <= i < encoded_bytes(EscapeSet::Component, bytes).len() ==> {
                let c = #[trigger] encoded_bytes(EscapeSet::Component, bytes)[i];
                ||| c == '%'
                ||| is_alphanumeric_char(c)
                ||| (is_mark(c) && bytes.contains(c as u8))
            },
    decreases bytes.len(),
{
    if bytes.len() > 0 {
        let head = encoded_bytes(EscapeSet::Component, bytes.drop_last());
        let last = encoded_byte(EscapeSet::Component, bytes.last());
        let all = encoded_bytes(EscapeSet::Component, bytes);
        lemma_component_chars(bytes.drop_last());
        assert forall|i: int| 0 <= i < all.len() implies {
            let c = #[trigger] all[i];
            ||| c == '%'
            ||| is_alphanumeric_char(c)
            ||| (is_mark(c) && bytes.contains(c as u8))
        } by {
            let c = all[i];
            if i < head.len() {
                assert(c == head[i]);
                if is_mark(c) && bytes.drop_last().contains(c as u8) {
                    let j = choose|j: int|
                        0 <= j < bytes.drop_last().len() && bytes.drop_last()[j] == c as u8;
                    assert(bytes[j] == c as u8);
                }
            } else {
                assert(c == last[i - head.len()]);
                let b = bytes.last();
                if EscapeSet::Component.keeps(b) {
                    assert(c == b as char);
                    assert(bytes[bytes.len() - 1] == b);
                }
            }
        }
    }
}

/// Where a set keeps every byte, the encoding is the bytes themselves.
pub proof fn lemma_kept_bytes(set: EscapeSet, bytes: Seq<u8>)
    requires
        forall|i: int| 0 <= i < bytes.len() ==> set.keeps(#[trigger] bytes[i]),
    ensures
        encoded_bytes(set, bytes) == Seq::new(bytes.len(), |i: int| bytes[i] as char),
    decreases bytes.len(),
{
    if bytes.len() == 0 {
        assert(encoded_bytes(set, bytes) =~= Seq::new(bytes.len(), |i: int| bytes[i] as char));
    } else {
        let init = bytes.drop_last();
        assert forall|i: int| 0 <= i < init.len() implies set.keeps(#[trigger] init[i]) by {
            assert(init[i] == bytes[i]);
        }
        lemma_kept_bytes(set, init);
        assert(set.keeps(bytes[bytes.len() - 1]));
        assert(encoded_bytes(set, bytes) =~= Seq::new(bytes.len(), |i: int| bytes[i] as char));
    }
}

/// The number that the hexadecimal digit `c` stands for.
pub open spec fn hex_value(c: char) -> Option<int> {
    if '0' <= c <= '9' {
        Some(c as int - 0x30)
    } else if 'A' <= c <= 'F' {
        Some(c as int - 0x37)
    } else if 'a' <= c <= 'f' {
        Some(c as int - 0x57)
    } else {
        None
    }
}

/// `text` starts with `%` and two hexadecimal digits.
pub open spec fn starts_escaped(text: Seq<char>) -> bool {
    &&& text.len() >= 3
    &&& text[0] == '%'
    &&& hex_value(text[1]) is Some
    &&& hex_value(text[2]) is Some
}

/// The bytes that a percent-encoded text stands for: `%` and two
/// hexadecimal digits stand for the byte of that number, any other character
/// for its UTF-8 form.
pub open spec fn decoded_bytes(text: Seq<char>) -> Seq<u8>
    decreases text.len(),
{
    if text.len() == 0 {
        Seq::empty()
    } else if starts_escaped(text) {
        seq![(16 * hex_value(text[1])->0 + hex_value(text[2])->0) as u8] + decoded_bytes(
            text.subrange(3, text.len() as int),
        )
    } else {
        encode_scalar(text[0] as u32) + decoded_bytes(text.drop_first())
    }
}

/// The text that a percent-encoded text stands for, or `None` where its
/// bytes are no UTF-8.
pub open spec fn decoded(text: Seq<char>) -> Option<Seq<char>> {
    if valid_utf8(decoded_bytes(text)) {
        Some(decode_utf8(decoded_bytes(text)))
    } else {
        None
    }
}

/// The bytes of an encoded component are the bytes that were encoded.
pub proof fn lemma_component_bytes_round_trip(bytes: Seq<u8>)
    ensures
        decoded_bytes(encoded_bytes(EscapeSet::Component, bytes)) == bytes,
    decreases bytes.len(),
{
    let set = EscapeSet::Component;
    if bytes.len() == 0 {
        assert(decoded_bytes(encoded_bytes(set, bytes)) =~= bytes);
    } else {
        let b = bytes[0];
        let tail = bytes.drop_first();
        let head = encoded_byte(set, b);
        let rest = encoded_bytes(set, tail);
        let text = encoded_bytes(set, bytes);
        assert(text == head + rest) by {
            assert(bytes =~= seq![b] + tail);
            lemma_encoded_bytes_concat(set, seq![b], tail);
            assert(seq![b].drop_last() =~= Seq::<u8>::empty());
            assert(encoded_bytes(set, Seq::<u8>::empty()) =~= Seq::<char>::empty());
            assert(seq![b].last() == b);
            assert(encoded_bytes(set, seq![b]) =~= head);
        }
        lemma_component_bytes_round_trip(tail);
        if set.keeps(b) {
            let c = b as char;
            assert(text[0] == c);
            assert(text.drop_first() =~= rest);
            lemma_scalar_bytes(c);
            assert(c as u8 == b);
            assert(decoded_bytes(text) =~= bytes);
        } else {
            let high = b as int / 16;
            let low = b as int % 16;
            assert(text[0] == '%');
            assert(text[1] == hex_digit(high));
            assert(text[2] == hex_digit(low));
            assert(hex_value(hex_digit(high)) == Some(high));
            assert(hex_value(hex_digit(low)) == Some(low));
            assert(text.subrange(3, text.len() as int) =~= rest);
            assert((16 * high + low) as u8 == b);
            assert(decoded_bytes(text) =~= bytes);
        }
    }
}

/// A text that was encoded as a component is read back as it was.
pub proof fn lemma_component_round_trip(text: Seq<char>)
    ensures
        decoded(encoded(EscapeSet::Component, text)) == Some(text),
{
    lemma_component_bytes_round_trip(encode_utf8(text));
    encode_utf8_valid_utf8(text);
    encode_utf8_decode_utf8(text);
}

} // verus!
