//! Search by regular expression.
use vstd::prelude::*;

verus! {

/// Whether a pattern is found in a text; none where the pattern is no regular
/// expression.
pub uninterp spec fn regex_search(pattern: Seq<char>, text: Seq<char>) -> Option<bool>;

/// `regex::Regex::new` and `regex::Regex::is_match`: whether the pattern is found
/// anywhere in the text. The contract gives the result a name.
#[verifier::external_body]
pub(crate) fn search(pattern: &str, text: &str) -> (r: Option<bool>)
    ensures
        r == regex_search(pattern@, text@),
{
    regex::Regex::new(pattern).ok().map(|re| re.is_match(text))
}

} // verus!
