//! Regular-expression matching, backed by the `regex` crate.
use vstd::prelude::*;
use regex::Regex;

verus! {

/// What `regex::Regex::find` finds in `haystack` with the regex that
/// `regex::Regex::new` compiles from `pattern` (nothing when the pattern does
/// not compile): the text before the leftmost-first match, and the match.
pub uninterp spec fn regex_first_match(pattern: Seq<char>, haystack: Seq<char>) -> Option<(Seq<char>, Seq<char>)>;

/// Compiles `pattern` with `regex::Regex::new` and searches `haystack` with
/// `regex::Regex::find`, returning the text before the match and the matched
/// text; `None` when there is no match or the pattern does not compile.
/// Contract: the result is `regex_first_match(pattern, haystack)`, and (as the
/// crate documents for `Match::start`, `Match::end` and `Match::as_str`) the
/// text before the match followed by the match is a prefix of the haystack.
/// What the match is, for a given pattern, is not stated.
#[verifier::external_body]
pub(crate) fn regex_find(pattern: &str, haystack: &str) -> (r: Option<(String, String)>)
    ensures
        r is None == regex_first_match(pattern@, haystack@) is None,
        r matches Some((pre, m)) ==> regex_first_match(pattern@, haystack@) == Some((pre@, m@)),
        r matches Some((pre, m)) ==> pre@.len() + m@.len() <= haystack@.len()
            && haystack@.subrange(0, (pre@.len() + m@.len()) as int) == pre@ + m@,
{
    let re = match Regex::new(pattern) {
        Ok(re) => re,
        Err(_) => return None,
    };
    match re.find(haystack) {
        Some(m) => Some((haystack[..m.start()].to_string(), m.as_str().to_string())),
        None => None,
    }
}

} // verus!
