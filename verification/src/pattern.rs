//! Regular-expression matching, provided by the `regex` crate.
use vstd::prelude::*;

verus! {

/// What `regex::Regex::captures_iter` yields for `pattern` over `text`: one entry
/// per match, in order, holding the text of capture group `group` when it took part.
/// A pattern that does not compile yields no entries.
pub uninterp spec fn regex_captures(pattern: Seq<char>, text: Seq<char>, group: nat) -> Seq<
    Option<Seq<char>>,
>;

/// What `regex::Regex::find_iter` yields for `pattern` over `text`: the text of
/// each match, in order. A pattern that does not compile yields no entries.
pub uninterp spec fn regex_matches(pattern: Seq<char>, text: Seq<char>) -> Seq<Seq<char>>;

/// Compiles `pattern` with `regex::Regex::new` and collects capture group `group`
/// of every match of `regex::Regex::captures_iter` over `text`. The contract names
/// the result and does not spell out regular-expression semantics.
#[verifier::external_body]
pub(crate) fn capture_group_texts(pattern: &str, text: &str, group: usize) -> (r: Vec<Option<String>>)
    ensures
        r.deep_view() == regex_captures(pattern@, text@, group as nat),
{
    match regex::Regex::new(pattern) {
        Ok(re) => re.captures_iter(text).map(|caps| caps.get(group).map(|m| m.as_str().to_string())).collect(),
        Err(_) => Vec::new(),
    }
}

/// Compiles `pattern` with `regex::Regex::new` and collects the text of every
/// match of `regex::Regex::find_iter` over `text`. The contract names the result.
#[verifier::external_body]
pub(crate) fn match_texts(pattern: &str, text: &str) -> (r: Vec<String>)
    ensures
        r.deep_view() == regex_matches(pattern@, text@),
{
    match regex::Regex::new(pattern) {
        Ok(re) => re.find_iter(text).map(|m| m.as_str().to_string()).collect(),
        Err(_) => Vec::new(),
    }
}

} // verus!
