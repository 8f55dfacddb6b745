//! Links and their click statistics.

use crate::clock::{display_text, Timestamp};
use crate::escape::{
    encoded, escape, is_alphanumeric_char, lemma_ascii_byte_is_char, lemma_component_chars,
    lemma_kept_bytes, EscapeSet,
};
use crate::text::to_chars;
use crate::CreateUpdateRequest;
use vstd::prelude::*;
use vstd::string::*;
use vstd::utf8::*;

verus! {

/// `text` with every `-` spelled `to`.
pub open spec fn hyphens_spelled(text: Seq<char>) -> Seq<char>
    decreases text.len(),
{
    if text.len() == 0 {
        Seq::empty()
    } else if text.last() == '-' {
        hyphens_spelled(text.drop_last()) + seq!['t', 'o']
    } else {
        hyphens_spelled(text.drop_last()).push(text.last())
    }
}

/// The key under which the short code `short` is stored: its
/// percent-encoding as a component, with every `-` of that spelled `to`.
pub open spec fn normalized(short: Seq<char>) -> Seq<char> {
    hyphens_spelled(encoded(EscapeSet::Component, short))
}

/// The normalized id of a link's short name.
pub fn normalized_id(short: &str) -> (id: String)
    ensures
        id@ == normalized(short@),
{
    let escaped = escape(EscapeSet::Component, short);
    let chars = to_chars(escaped.as_str());
    let mut id = String::new();
    let mut i: usize = 0;
    assert(chars@.take(0) =~= Seq::<char>::empty());
    while i < chars.len()
        invariant
            i <= chars.len(),
            id@ == hyphens_spelled(chars@.take(i as int)),
        decreases chars.len() - i,
    {
        assert(chars@.take(i + 1).drop_last() =~= chars@.take(i as int));
        if chars[i] == '-' {
            id.push('t');
            id.push('o');
            assert(id@ =~= hyphens_spelled(chars@.take(i as int)) + seq!['t', 'o']);
        } else {
            id.push(chars[i]);
        }
        i += 1;
    }
    assert(chars@.take(chars.len() as int) =~= chars@);
    id
}

/// A short link: the stored form of `go/short`.
#[derive(Clone, Debug, PartialEq, Eq)]
pub struct Link {
    /// The normalized key of `short`.
    pub id: String,
    /// The name that the owner gave, as in `go/short`.
    pub short: String,
    /// The destination: a URL or a pattern that expands to one.
    pub long: String,
    pub created: Timestamp,
    pub updated: Timestamp,
    pub owner: Option<String>,
}

/// How often a link was followed.
#[derive(Clone, Debug)]
pub struct ClickStats {
    /// The normalized key of the link.
    pub id: String,
    pub created: Timestamp,
    /// The number of clicks, or `None` before the first one.
    pub clicks: Option<i32>,
}

/// A link in the list of the most followed ones.
#[derive(Clone, Debug)]
pub struct PopularLink {
    pub id: String,
    pub short: String,
    pub clicks: Option<i32>,
}

/// A link together with its number of clicks.
#[derive(Clone, Debug)]
pub struct LinkDetails {
    pub id: String,
    pub short: String,
    pub long: String,
    pub created: Timestamp,
    pub updated: Timestamp,
    pub clicks: Option<i32>,
}

/// The text that stands for the time `t`; nothing where the calendar cannot
/// hold it.
pub open spec fn time_text(t: Timestamp) -> Seq<char> {
    match display_text(t.secs as int, t.nanos as int) {
        Some(text) => text,
        None => Seq::empty(),
    }
}

/// The owner of a link as it is shown: nothing where there is none.
pub open spec fn owner_text(owner: Option<String>) -> Seq<char> {
    match owner {
        Some(owner) => " (owner: "@ + owner@ + ")"@,
        None => Seq::empty(),
    }
}

/// The line that describes a link.
pub open spec fn link_text(link: Link) -> Seq<char> {
    link.id@ + ": "@ + "go/"@ + link.short@ + " -> "@ + link.long@ + owner_text(link.owner)
        + " [created: "@ + time_text(link.created) + ", updated: "@ + time_text(link.updated)
        + "]"@
}

/// Appends to `out` the text that stands for the time `t`.
fn push_time(out: &mut String, t: &Timestamp)
    ensures
        final(out)@ == old(out)@ + time_text(*t),
{
    match t.display() {
        Some(text) => out.append(text.as_str()),
        None => {
            assert(out@ + Seq::<char>::empty() =~= out@);
        },
    }
}

impl Link {
    /// The link that `request` asks for, made at time `now`.
    pub fn stamped(request: CreateUpdateRequest, now: Timestamp) -> (link: Link)
        ensures
            link.id@ == normalized(request.short@),
            link.short@ == request.short@,
            link.long@ == request.target@,
            link.created == now,
            link.updated == now,
            link.owner is None,
    {
        Link {
            id: normalized_id(request.short.as_str()),
            short: request.short,
            long: request.target,
            created: now,
            updated: now,
            owner: None,
        }
    }

    /// The link that `request` asks for, made at the time of the call.
    pub fn from_request(request: CreateUpdateRequest) -> (link: Link)
        ensures
            link.id@ == normalized(request.short@),
            link.short@ == request.short@,
            link.long@ == request.target@,
            link.created == link.updated,
            link.owner is None,
    {
        Link::stamped(request, Timestamp::now())
    }

    /// The link with the destination of `request`, changed at time `now`:
    /// its short name stays as it is.
    pub fn retargeted(self, request: CreateUpdateRequest, now: Timestamp) -> (link: Link)
        ensures
            link.id@ == self.id@,
            link.short@ == self.short@,
            link.long@ == request.target@,
            link.created == self.created,
            link.updated == now,
            link.owner == self.owner,
    {
        Link {
            id: self.id,
            short: self.short,
            long: request.target,
            created: self.created,
            updated: now,
            owner: self.owner,
        }
    }

    /// The line that describes the link.
    pub fn to_text(&self) -> (text: String)
        ensures
            text@ == link_text(*self),
    {
        let mut text = self.id.clone();
        text.append(": ");
        text.append("go/");
        text.append(self.short.as_str());
        text.append(" -> ");
        text.append(self.long.as_str());
        match &self.owner {
            Some(owner) => {
                let ghost before = text@;
                text.append(" (owner: ");
                text.append(owner.as_str());
                text.append(")");
                assert(text@ =~= before + owner_text(self.owner));
            },
            None => {
                assert(text@ + Seq::<char>::empty() =~= text@);
            },
        }
        text.append(" [created: ");
        push_time(&mut text, &self.created);
        text.append(", updated: ");
        push_time(&mut text, &self.updated);
        text.append("]");
        text
    }
}

impl PopularLink {
    /// The entry for `link` with the clicks of `stats`, none counted as 0.
    pub fn of(link: &Link, stats: &ClickStats) -> (entry: PopularLink)
        ensures
            entry.id@ == link.id@,
            entry.short@ == link.short@,
            entry.clicks == Some(
                match stats.clicks {
                    Some(n) => n,
                    None => 0i32,
                },
            ),
    {
        let clicks: i32 = match stats.clicks {
            Some(n) => n,
            None => 0,
        };
        PopularLink { id: link.id.clone(), short: link.short.clone(), clicks: Some(clicks) }
    }
}

impl LinkDetails {
    /// The details of `link` with the clicks of `stats`: none where there are
    /// no statistics, 0 where no click was counted yet.
    pub fn of(link: Link, stats: Option<&ClickStats>) -> (details: LinkDetails)
        ensures
            details.id@ == link.id@,
            details.short@ == link.short@,
            details.long@ == link.long@,
            details.created == link.created,
            details.updated == link.updated,
            details.clicks == match stats {
                Some(stats) => Some(
                    match stats.clicks {
                        Some(n) => n,
                        None => 0i32,
                    },
                ),
                None => None,
            },
    {
        let clicks: Option<i32> = match stats {
            Some(stats) => match stats.clicks {
                Some(n) => Some(n),
                None => Some(0),
            },
            None => None,
        };
        LinkDetails {
            id: link.id,
            short: link.short,
            long: link.long,
            created: link.created,
            updated: link.updated,
            clicks,
        }
    }
}

/// Whether one of `links` has the short name `short`.
pub fn short_taken(links: &Vec<Link>, short: &str) -> (taken: bool)
    ensures
        taken == exists|i: int| 0 <= i < links.len() && (#[trigger] links[i]).short@ == short@,
{
    let wanted = short.to_owned();
    let mut i: usize = 0;
    while i < links.len()
        invariant
            i <= links.len(),
            wanted@ == short@,
            forall|j: int| 0 <= j < i ==> (#[trigger] links[j]).short@ != short@,
        decreases links.len() - i,
    {
        if links[i].short == wanted {
            return true;
        }
        i += 1;
    }
    false
}

/// A text without `-` is spelled as it is.
pub proof fn lemma_nothing_to_spell(text: Seq<char>)
    requires
        !text.contains('-'),
    ensures
        hyphens_spelled(text) == text,
    decreases text.len(),
{
    if text.len() > 0 {
        let init = text.drop_last();
        if init.contains('-') {
            let j = choose|j: int| 0 <= j < init.len() && init[j] == '-';
            assert(text[j] == '-');
        }
        assert(text[text.len() - 1] != '-');
        lemma_nothing_to_spell(init);
        assert(init.push(text.last()) =~= text);
    } else {
        assert(hyphens_spelled(text) =~= text);
    }
}

/// The key of a short code without a hyphen is its percent-encoding.
pub proof fn lemma_normalized_without_hyphen(short: Seq<char>)
    requires
        !short.contains('-'),
    ensures
        normalized(short) == encoded(EscapeSet::Component, short),
{
    let bytes = encode_utf8(short);
    let text = encoded(EscapeSet::Component, short);
    lemma_component_chars(bytes);
    if text.contains('-') {
        let i = choose|i: int| 0 <= i < text.len() && text[i] == '-';
        assert(bytes.contains('-' as u8));
        let j = choose|j: int| 0 <= j < bytes.len() && bytes[j] == '-' as u8;
        lemma_ascii_byte_is_char(short, j);
    }
    lemma_nothing_to_spell(text);
}

/// `c` is a letter or a digit of ASCII, or one of `.`, `_`, `~`.
pub open spec fn is_plain(c: char) -> bool {
    is_alphanumeric_char(c) || c == '.' || c == '_' || c == '~'
}

/// The key of a short code made of ASCII letters, digits, `.`, `_` and `~` is
/// the short code itself.
pub proof fn lemma_normalized_plain(short: Seq<char>)
    requires
        forall|i: int| 0 <= i < short.len() ==> is_plain(#[trigger] short[i]),
    ensures
        normalized(short) == short,
{
    let bytes = encode_utf8(short);
    assert(is_ascii_chars(short));
    is_ascii_chars_encode_utf8(short);
    assert forall|i: int| 0 <= i < bytes.len() implies EscapeSet::Component.keeps(
        #[trigger] bytes[i],
    ) by {
        assert(bytes[i] == short[i] as u8);
        assert(is_plain(short[i]));
    }
    lemma_kept_bytes(EscapeSet::Component, bytes);
    assert(encoded(EscapeSet::Component, short) =~= short) by {
        assert forall|i: int| 0 <= i < short.len() implies (bytes[i] as char) == short[i] by {
            assert(bytes[i] == short[i] as u8);
            assert(is_plain(short[i]));
        }
    }
    if short.contains('-') {
        let j = choose|j: int| 0 <= j < short.len() && short[j] == '-';
        assert(is_plain(short[j]));
    }
    lemma_normalized_without_hyphen(short);
}

} // verus!
