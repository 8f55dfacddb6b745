//! What a request for a short code asks for.

use crate::helpers::{trim_suffix, without_suffix};
use crate::text::to_chars;
use vstd::prelude::*;
use vstd::string::*;

verus! {

/// What a request for a short code asks for, as a mathematical value.
pub enum TargetModel {
    Details(Seq<char>),
    Follow,
}

/// What a request for a short code asks for.
#[derive(Debug)]
pub enum Target {
    /// The details of the link with this short code.
    Details(String),
    /// The redirect to the link's destination.
    Follow,
}

impl View for Target {
    type V = TargetModel;

    open spec fn view(&self) -> TargetModel {
        match self {
            Target::Details(short) => TargetModel::Details(short@),
            Target::Follow => TargetModel::Follow,
        }
    }
}

/// `+`, which asks for the details of a link.
pub open spec fn plus() -> Seq<char> {
    seq!['+']
}

/// `text` ends with `+`.
pub open spec fn ends_with_plus(text: Seq<char>) -> bool {
    text.len() > 0 && text.last() == '+'
}

/// What the request for `full_path`, whose first segment is `short`, asks
/// for: a path that ends with `+` asks for the details of the link whose
/// short code is `short` without that `+` (of the whole path, where `short`
/// does not end with `+`), any other path for the redirect.
pub open spec fn target(short: Seq<char>, full_path: Seq<char>) -> TargetModel {
    if ends_with_plus(full_path) {
        if ends_with_plus(short) {
            TargetModel::Details(without_suffix(short, plus()))
        } else {
            TargetModel::Details(full_path)
        }
    } else {
        TargetModel::Follow
    }
}

/// Whether `text` ends with `+`.
fn has_plus(text: &str) -> (r: bool)
    ensures
        r == ends_with_plus(text@),
{
    let chars = to_chars(text);
    chars.len() > 0 && chars[chars.len() - 1] == '+'
}

/// What the request for `full_path`, whose first segment is `short`, asks
/// for.
pub fn target_of(short: &str, full_path: &str) -> (out: Target)
    ensures
        out@ == target(short@, full_path@),
{
    if has_plus(full_path) {
        if has_plus(short) {
            proof {
                reveal_strlit("+");
                assert("+"@ =~= plus());
            }
            Target::Details(trim_suffix(short, "+"))
        } else {
            Target::Details(full_path.to_owned())
        }
    } else {
        Target::Follow
    }
}

/// Whether a caller that sent the header value `sec_header` may make a link
/// without a token: it may where the value is not empty, which a script in
/// a browser cannot arrange.
pub fn trusts_caller(sec_header: &str) -> (r: bool)
    ensures
        r == (sec_header@.len() > 0),
{
    !sec_header.is_empty()
}

} // verus!
