//! Text matched by regular expressions, through the `regex` crate.

use vstd::prelude::*;

verus! {

/// What the regex crate finds first for `pattern` in `haystack`.
pub uninterp spec fn regex_first_match(pattern: Seq<char>, haystack: Seq<char>) -> Option<Seq<char>>;

/// `regex::Regex::new(pattern)` then `find(haystack)`: the text of the
/// leftmost-first match, which lies in `haystack`; `None` when there is no
/// match or the pattern does not compile.
#[verifier::external_body]
pub(crate) fn regex_find(pattern: &str, haystack: &str) -> (r: Option<String>)
    ensures
        match r {
            Some(m) => regex_first_match(pattern@, haystack@) == Some(m@) && crate::text::has_infix(haystack@, m@),
            None => regex_first_match(pattern@, haystack@) is None,
        },
{
    match regex::Regex::new(pattern) {
        Ok(re) => re.find(haystack).map(|m| m.as_str().to_string()),
        Err(_) => None,
    }
}

/// What the regex crate makes of `text` when the first match of `pattern`
/// is replaced by `replacement`; `None` when the pattern does not compile.
pub uninterp spec fn regex_replacement(pattern: Seq<char>, text: Seq<char>, replacement: Seq<char>) -> Option<Seq<char>>;

/// `regex::Regex::new(pattern)` then `replace(text, replacement)`: `text`
/// with its leftmost-first match of `pattern` replaced, `text` unchanged when
/// nothing matches; `None` when the pattern does not compile.
#[verifier::external_body]
pub(crate) fn regex_replace(pattern: &str, text: &str, replacement: &str) -> (r: Option<String>)
    ensures
        match r {
            Some(t) => regex_replacement(pattern@, text@, replacement@) == Some(t@),
            None => regex_replacement(pattern@, text@, replacement@) is None,
        },
{
    match regex::Regex::new(pattern) {
        Ok(re) => Some(re.replace(text, replacement).into_owned()),
        Err(_) => None,
    }
}

} // verus!
