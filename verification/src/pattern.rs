//! Regular-expression matching and JSON validity, as the `regex` and `serde_json` crates
//! decide them.
use vstd::prelude::*;
use crate::config::opt_chars;

verus! {

/// The capture groups that the `regex` crate reports for the leftmost match of the pattern
/// in the text: group 0 is the whole match, and a group that took no part in the match is
/// absent. `None` when the pattern does not compile or does not match.
pub uninterp spec fn regex_captures(pattern: Seq<char>, text: Seq<char>) -> Option<
    Seq<Option<Seq<char>>>,
>;

/// The characters of captured groups.
pub open spec fn captures_model(c: Option<Vec<Option<String>>>) -> Option<Seq<Option<Seq<char>>>> {
    match c {
        Some(v) => Some(v@.map_values(|o: Option<String>| opt_chars(o))),
        None => None,
    }
}

/// `regex::Regex::new` followed by `Regex::captures`: compiles `pattern` and returns every
/// capture group of the leftmost match in `text`, group 0 first. Claimed: the groups are the
/// named result for the pattern and the text; nothing is stated of regular-expression
/// semantics.
#[verifier::external_body]
pub(crate) fn captures(pattern: &str, text: &str) -> (r: Option<Vec<Option<String>>>)
    ensures
        captures_model(r) == regex_captures(pattern@, text@),
{
    let re = regex::Regex::new(pattern).ok()?;
    let caps = re.captures(text)?;
    Some(caps.iter().map(|m| m.map(|m| m.as_str().to_string())).collect())
}

/// Group `i` of a capture result, as `Captures::get` gives it.
pub open spec fn group(c: Seq<Option<Seq<char>>>, i: int) -> Option<Seq<char>> {
    if 0 <= i < c.len() {
        c[i]
    } else {
        None
    }
}

/// Group `i` of a capture result.
pub fn get_group(c: &Vec<Option<String>>, i: usize) -> (r: Option<String>)
    ensures
        opt_chars(r) == group(c@.map_values(|o: Option<String>| opt_chars(o)), i as int),
{
    if i < c.len() {
        match &c[i] {
            Some(s) => Some(s.clone()),
            None => None,
        }
    } else {
        None
    }
}

/// Whether `serde_json` accepts the text as a JSON document.
pub uninterp spec fn json_parses(text: Seq<char>) -> bool;

/// `serde_json::from_str::<serde_json::Value>`: whether the text parses as JSON. Claimed:
/// the answer is the named predicate of the text.
#[verifier::external_body]
pub(crate) fn is_valid_json(text: &str) -> (b: bool)
    ensures
        b == json_parses(text@),
{
    serde_json::from_str::<serde_json::Value>(text).is_ok()
}

} // verus!
